//! States and their divisions: the typed records, the nested builder,
//! the parser driver and the canonical serializer.
//!
//! A states file wraps its states in one root block: each file-level
//! value is an object whose fields are the states, and each state's
//! object holds repeatable `create_state` and `add_homeland` fields.
use vstd::prelude::*;
use crate::country_definition::{
    opt_text_view, spec_coerce_diag, spec_missing_diag, spec_obj_fields, spec_words, texts_view,
};
use crate::logger::{DiagV, Diagnostic, ILogger, Logger};
use crate::parser::{parse_root_fields, spec_parse_text};
use crate::text::str_eq;
use crate::value::{FieldV, Value, ValueV};
use crate::value_reader::{spec_read_string, spec_read_string_array};

verus! {

/// The diagnostics name of this entity type.
pub open spec fn spec_state_type_str() -> Seq<char> {
    "State"@
}

/// Specification-level mirror of [`StateDivision`].
#[verifier::ext_equal]
pub struct StateDivisionV {
    pub country: Seq<char>,
    pub provinces: Seq<Seq<char>>,
    pub state_type: Option<Seq<char>>,
}

/// One `create_state` block: the owning country, its provinces, and an
/// optional state type.
#[derive(PartialEq, Debug, Clone)]
pub struct StateDivision {
    pub country: String,
    pub provinces: Vec<String>,
    pub state_type: Option<String>,
}

impl View for StateDivision {
    type V = StateDivisionV;

    open spec fn view(&self) -> StateDivisionV {
        StateDivisionV {
            country: self.country@,
            provinces: texts_view(self.provinces@),
            state_type: opt_text_view(self.state_type),
        }
    }
}

/// The view of a list of divisions.
pub open spec fn divs_view(s: Seq<StateDivision>) -> Seq<StateDivisionV> {
    s.map_values(|d: StateDivision| d@)
}

/// The view of an optional list of divisions.
pub open spec fn opt_divs_view(o: Option<Vec<StateDivision>>) -> Option<Seq<StateDivisionV>> {
    match o {
        Some(ds) => Some(divs_view(ds@)),
        None => None,
    }
}

/// Specification-level mirror of [`State`].
#[verifier::ext_equal]
pub struct StateV {
    pub name: Seq<char>,
    pub homelands: Seq<Seq<char>>,
    pub divisions: Option<Seq<StateDivisionV>>,
}

/// One state: its name, the homelands added to it, and its divisions.
#[derive(PartialEq, Debug)]
pub struct State {
    pub name: String,
    pub homelands: Vec<String>,
    pub divisions: Option<Vec<StateDivision>>,
}

impl View for State {
    type V = StateV;

    open spec fn view(&self) -> StateV {
        StateV {
            name: self.name@,
            homelands: texts_view(self.homelands@),
            divisions: opt_divs_view(self.divisions),
        }
    }
}

impl State {
    /// A state from its parts.
    pub fn new(name: String, homelands: Vec<String>, divisions: Option<Vec<StateDivision>>) -> (r:
        State)
        ensures
            r@ == (StateV {
                name: name@,
                homelands: texts_view(homelands@),
                divisions: opt_divs_view(divisions),
            }),
    {
        State { name, homelands, divisions }
    }

    /// A state on the heap.
    pub fn new_boxed(name: String, homelands: Vec<String>, divisions: Option<Vec<StateDivision>>) -> (r: Box<State>)
        ensures
            r@ == (StateV {
                name: name@,
                homelands: texts_view(homelands@),
                divisions: opt_divs_view(divisions),
            }),
    {
        Box::new(State::new(name, homelands, divisions))
    }
}

/// Structs that represent a state: its name, homelands and divisions.
pub trait IState: Sized {
    /// The state's specification-level value.
    spec fn model(&self) -> StateV;

    /// The state's name.
    fn name(&self) -> (r: String)
        ensures
            r@ == self.model().name,
    ;

    /// Replaces the state's name.
    fn set_name(&mut self, name: String)
        ensures
            final(self).model() == (StateV { name: name@, ..old(self).model() }),
    ;

    /// The homelands added to the state.
    fn homelands(&self) -> (r: &Vec<String>)
        ensures
            texts_view(r@) == self.model().homelands,
    ;

    /// Replaces the homelands.
    fn set_homelands(&mut self, homelands: Vec<String>)
        ensures
            final(self).model() == (StateV {
                homelands: texts_view(homelands@),
                ..old(self).model()
            }),
    ;

    /// The state's divisions, if any were created.
    fn divisions(&self) -> (r: &Option<Vec<StateDivision>>)
        ensures
            opt_divs_view(*r) == self.model().divisions,
    ;

    /// Replaces the divisions.
    fn set_divisions(&mut self, divisions: Option<Vec<StateDivision>>)
        ensures
            final(self).model() == (StateV {
                divisions: opt_divs_view(divisions),
                ..old(self).model()
            }),
    ;
}

impl IState for State {
    open spec fn model(&self) -> StateV {
        self@
    }

    fn name(&self) -> (r: String) {
        self.name.clone()
    }

    fn set_name(&mut self, name: String) {
        self.name = name;
        proof {
            assert(self.model() =~= (StateV { name: self.name@, ..old(self).model() }));
        }
    }

    fn homelands(&self) -> (r: &Vec<String>) {
        &self.homelands
    }

    fn set_homelands(&mut self, homelands: Vec<String>) {
        self.homelands = homelands;
        proof {
            assert(self.model() =~= (StateV {
                homelands: texts_view(self.homelands@),
                ..old(self).model()
            }));
        }
    }

    fn divisions(&self) -> (r: &Option<Vec<StateDivision>>) {
        &self.divisions
    }

    fn set_divisions(&mut self, divisions: Option<Vec<StateDivision>>) {
        self.divisions = divisions;
        proof {
            assert(self.model() =~= (StateV {
                divisions: opt_divs_view(self.divisions),
                ..old(self).model()
            }));
        }
    }
}

/// Specification-level mirror of [`InnerStateBuilder`].
#[verifier::ext_equal]
pub struct StateBuilderV {
    pub name: Option<Seq<char>>,
    pub homelands: Option<Seq<Seq<char>>>,
    pub divisions: Option<Seq<StateDivisionV>>,
    pub diags: Seq<DiagV>,
}

/// A fresh builder: nothing staged, nothing logged.
pub open spec fn spec_state_new() -> StateBuilderV {
    StateBuilderV { name: None, homelands: None, divisions: None, diags: Seq::empty() }
}

/// Seeding the name from the enclosing key.
pub open spec fn spec_state_apply_root(b: StateBuilderV, root: Seq<char>) -> StateBuilderV {
    StateBuilderV { name: Some(root), ..b }
}

/// Folding the recognized fields of one `create_state` block, first to
/// last; a later occurrence of a key overwrites an earlier one, and a
/// value of the wrong shape unsets it.
pub open spec fn spec_div_fold(fields: Seq<FieldV>) -> (
    Option<Seq<char>>,
    Option<Seq<Seq<char>>>,
    Option<Seq<char>>,
)
    decreases fields.len(),
{
    if fields.len() == 0 {
        (None, None, None)
    } else {
        let (c, p, t) = spec_div_fold(fields.drop_last());
        let f = fields.last();
        if f.key == "country"@ {
            (spec_read_string(f.val), p, t)
        } else if f.key == "owned_provinces"@ {
            (c, spec_read_string_array(f.val), t)
        } else if f.key == "state_type"@ {
            (c, p, spec_read_string(f.val))
        } else {
            (c, p, t)
        }
    }
}

/// Reading one `create_state` value: it must be a braced object whose
/// folded fields yield a country and a province list.
pub open spec fn spec_read_division(v: ValueV) -> Option<StateDivisionV> {
    match spec_obj_fields(v) {
        None => None,
        Some(fields) => {
            let (c, p, t) = spec_div_fold(fields);
            if c is Some && p is Some {
                Some(StateDivisionV { country: c->0, provinces: p->0, state_type: t })
            } else {
                None
            }
        },
    }
}

/// Applying one `key = value` pair to a state under construction:
/// `create_state` appends a division, `add_homeland` appends a homeland,
/// anything else is silently ignored.
pub open spec fn spec_state_apply(b: StateBuilderV, key: Seq<char>, v: ValueV) -> (
    StateBuilderV,
    bool,
) {
    if key == "create_state"@ {
        match spec_read_division(v) {
            Some(d) => (
                StateBuilderV {
                    divisions: match b.divisions {
                        Some(ds) => Some(ds.push(d)),
                        None => Some(seq![d]),
                    },
                    ..b
                },
                true,
            ),
            None => (
                StateBuilderV {
                    diags: b.diags.push(spec_coerce_diag("Divisions"@, "Vec<StateDivision>"@)),
                    ..b
                },
                false,
            ),
        }
    } else if key == "add_homeland"@ {
        match spec_read_string(v) {
            Some(s) => (
                StateBuilderV {
                    homelands: match b.homelands {
                        Some(hs) => Some(hs.push(s)),
                        None => Some(seq![s]),
                    },
                    ..b
                },
                true,
            ),
            None => (
                StateBuilderV {
                    diags: b.diags.push(spec_coerce_diag("Homelands"@, "Vec<String>"@)),
                    ..b
                },
                false,
            ),
        }
    } else {
        (b, true)
    }
}

/// Finalizing a state: only the name is required; missing homelands
/// resolve to the empty list, missing divisions stay absent.
pub open spec fn spec_state_build(b: StateBuilderV) -> (Option<StateV>, Seq<DiagV>) {
    match b.name {
        Some(n) => (
            Some(
                StateV {
                    name: n,
                    homelands: match b.homelands {
                        Some(hs) => hs,
                        None => Seq::empty(),
                    },
                    divisions: b.divisions,
                },
            ),
            b.diags,
        ),
        None => (None, b.diags.push(spec_missing_diag(spec_state_type_str(), "Name"@))),
    }
}

/// The transient staging record for one state under construction.
pub struct InnerStateBuilder {
    pub name: Option<String>,
    pub homelands: Option<Vec<String>>,
    pub divisions: Option<Vec<StateDivision>>,
    pub logger: Logger,
}

/// The view of an optional list of texts.
pub open spec fn opt_texts_view2(o: Option<Vec<String>>) -> Option<Seq<Seq<char>>> {
    match o {
        Some(s) => Some(texts_view(s@)),
        None => None,
    }
}

impl View for InnerStateBuilder {
    type V = StateBuilderV;

    open spec fn view(&self) -> StateBuilderV {
        StateBuilderV {
            name: opt_text_view(self.name),
            homelands: opt_texts_view2(self.homelands),
            divisions: opt_divs_view(self.divisions),
            diags: self.logger.entries(),
        }
    }
}

impl InnerStateBuilder {
    /// A fresh, empty builder.
    pub fn new() -> (r: InnerStateBuilder)
        ensures
            r@ == spec_state_new(),
    {
        let r = InnerStateBuilder { name: None, homelands: None, divisions: None, logger: Logger::new() };
        proof {
            assert(r@ =~= spec_state_new());
        }
        r
    }

    /// A fresh builder on the heap.
    pub fn new_boxed() -> (r: Box<InnerStateBuilder>)
        ensures
            r@ == spec_state_new(),
    {
        Box::new(InnerStateBuilder::new())
    }

    /// Seeds the name from the enclosing key.
    pub fn apply_root(&mut self, root: &String)
        ensures
            final(self)@ == spec_state_apply_root(old(self)@, root@),
    {
        self.name = Some(root.clone());
        proof {
            assert(self@ =~= spec_state_apply_root(old(self)@, root@));
        }
    }

    /// Reads one `create_state` block and appends the division.
    fn apply_division(&mut self, value: &Value) -> (r: Result<(), ()>)
        ensures
            final(self)@ == spec_state_apply(old(self)@, "create_state"@, value@).0,
            r is Ok == spec_state_apply(old(self)@, "create_state"@, value@).1,
    {
        proof {
            reveal_strlit("create_state");
            reveal_strlit("country");
            reveal_strlit("owned_provinces");
            reveal_strlit("state_type");
            reveal_strlit("add_homeland");
        }
        let mut country: Option<String> = None;
        let mut provinces: Option<Vec<String>> = None;
        let mut state_type: Option<String> = None;
        match value {
            Value::Object(fs) => {
                let ghost fields_v = value@->Object_0;
                proof {
                    crate::value::lemma_object_view(value);
                }
                let mut j: usize = 0;
                while j < fs.len()
                    invariant
                        j <= fs@.len(),
                        fields_v.len() == fs@.len(),
                        forall|k: int| 0 <= k < fs@.len() ==> fields_v[k] == #[trigger] fs@[k]@,
                        spec_div_fold(fields_v.take(j as int)) == (
                            opt_text_view(country),
                            opt_texts_view2(provinces),
                            opt_text_view(state_type),
                        ),
                    decreases fs@.len() - j,
                {
                    proof {
                        assert(fields_v.take(j + 1 as int).drop_last() =~= fields_v.take(
                            j as int,
                        ));
                        assert(fields_v.take(j + 1 as int).last() == fields_v[j as int]);
                        assert(fs@[j as int]@ == (FieldV {
                            key: fs@[j as int].key@,
                            val: fs@[j as int].val@,
                        }));
                        assert(fields_v[j as int] == fs@[j as int]@);
                    }
                    if str_eq(fs[j].key.as_str(), "country") {
                        country = match fs[j].val.read_string() {
                            Ok(s) => Some(s),
                            Err(_) => None,
                        };
                    } else if str_eq(fs[j].key.as_str(), "owned_provinces") {
                        provinces = match fs[j].val.read_string_array() {
                            Ok(ps) => Some(ps),
                            Err(_) => None,
                        };
                    } else if str_eq(fs[j].key.as_str(), "state_type") {
                        state_type = match fs[j].val.read_string() {
                            Ok(s) => Some(s),
                            Err(_) => None,
                        };
                    }
                    j = j + 1;
                }
                proof {
                    assert(fields_v.take(fields_v.len() as int) =~= fields_v);
                }
            },
            Value::Absent => {
                proof {
                    assert(value@ is Absent);
                    assert(spec_div_fold(Seq::<FieldV>::empty()) == (
                        None::<Seq<char>>,
                        None::<Seq<Seq<char>>>,
                        None::<Seq<char>>,
                    ));
                }
            },
            _ => {
                proof {
                    if *value is Scalar {
                        assert(value@ is Scalar);
                    } else {
                        assert(value@ is Array);
                    }
                    assert(spec_read_division(value@) is None);
                }
                return self.logger.coerce_error("Divisions", "Vec<StateDivision>");
            },
        }
        match (country, provinces) {
            (Some(c), Some(p)) => {
                let d = StateDivision { country: c, provinces: p, state_type };
                match &mut self.divisions {
                    Some(ds) => {
                        ds.push(d);
                    },
                    None => {
                        let mut ds: Vec<StateDivision> = Vec::new();
                        ds.push(d);
                        self.divisions = Some(ds);
                    },
                }
                proof {
                    assert(self@ =~~= spec_state_apply(old(self)@, "create_state"@, value@).0);
                }
                Ok(())
            },
            _ => {
                let r = self.logger.coerce_error("Divisions", "Vec<StateDivision>");
                proof {
                    assert(self@ =~~= spec_state_apply(old(self)@, "create_state"@, value@).0);
                }
                r
            },
        }
    }

    /// Reads one `add_homeland` value and appends the homeland.
    fn apply_homeland(&mut self, value: &Value) -> (r: Result<(), ()>)
        ensures
            final(self)@ == spec_state_apply(old(self)@, "add_homeland"@, value@).0,
            r is Ok == spec_state_apply(old(self)@, "add_homeland"@, value@).1,
    {
        proof {
            reveal_strlit("create_state");
            reveal_strlit("add_homeland");
            assert("add_homeland"@ != "create_state"@) by {
                assert("add_homeland"@[0] == 'a');
                assert("create_state"@[0] == 'c');
            }
        }
        match value.read_string() {
            Ok(s) => {
                let mut tmp: Option<Vec<String>> = None;
                core::mem::swap(&mut tmp, &mut self.homelands);
                let mut hs = match tmp {
                    Some(hs) => hs,
                    None => Vec::new(),
                };
                hs.push(s);
                self.homelands = Some(hs);
                proof {
                    assert(self@ =~~= spec_state_apply(old(self)@, "add_homeland"@, value@).0);
                }
                Ok(())
            },
            Err(_) => {
                let r = self.logger.coerce_error("Homelands", "Vec<String>");
                proof {
                    assert(self@ =~~= spec_state_apply(old(self)@, "add_homeland"@, value@).0);
                }
                r
            },
        }
    }

    /// Interprets one `key = value` pair of a state block.
    pub fn apply(&mut self, key: &String, value: &Value) -> (r: Result<(), ()>)
        ensures
            final(self)@ == spec_state_apply(old(self)@, key@, value@).0,
            r is Ok == spec_state_apply(old(self)@, key@, value@).1,
    {
        if str_eq(key.as_str(), "create_state") {
            self.apply_division(value)
        } else if str_eq(key.as_str(), "add_homeland") {
            self.apply_homeland(value)
        } else {
            Ok(())
        }
    }

    /// Finalizes the state and hands out all diagnostics recorded for
    /// it.
    pub fn build(self) -> (r: (Result<State, ()>, Vec<Diagnostic>))
        ensures
            ({
                let (res, diags) = spec_state_build(self@);
                crate::logger::diags_view(r.1@) == diags && (match res {
                    Some(e) => r.0 is Ok && r.0->Ok_0@ == e,
                    None => r.0 is Err,
                })
            }),
    {
        let InnerStateBuilder { name, homelands, divisions, mut logger } = self;
        match name {
            Some(n) => {
                let hs = match homelands {
                    Some(hs) => hs,
                    None => Vec::new(),
                };
                let e = State { name: n, homelands: hs, divisions };
                proof {
                    assert(e@ == spec_state_build(self@).0->0);
                }
                (Ok(e), logger.take_entries())
            },
            None => {
                let _ = logger.missing_property_error("State", "Name");
                (Err(()), logger.take_entries())
            },
        }
    }

    /// A fresh builder with the same schema.
    pub fn create_new(&self) -> (r: InnerStateBuilder)
        ensures
            r@ == spec_state_new(),
    {
        InnerStateBuilder::new()
    }
}

/// Applying a list of fields to a state builder, first to last.
pub open spec fn spec_state_apply_fields(b: StateBuilderV, fields: Seq<FieldV>) -> StateBuilderV
    decreases fields.len(),
{
    if fields.len() == 0 {
        b
    } else {
        spec_state_apply(
            spec_state_apply_fields(b, fields.drop_last()),
            fields.last().key,
            fields.last().val,
        ).0
    }
}

/// One state entity: seed the name, apply every field, build.
pub open spec fn spec_state_entity(root: Seq<char>, fields: Seq<FieldV>) -> (
    Option<StateV>,
    Seq<DiagV>,
) {
    spec_state_build(
        spec_state_apply_fields(spec_state_apply_root(spec_state_new(), root), fields),
    )
}

/// Driving the state builder over the fields of one wrapper block: each
/// field is one state. A state whose value is not an object fails the
/// file; a state that fails to build is skipped.
pub open spec fn spec_states_inner(fields: Seq<FieldV>) -> Option<(Seq<StateV>, Seq<DiagV>)>
    decreases fields.len(),
{
    if fields.len() == 0 {
        Some((Seq::empty(), Seq::empty()))
    } else {
        match spec_states_inner(fields.drop_last()) {
            None => None,
            Some((ss, ds)) => match spec_obj_fields(fields.last().val) {
                None => None,
                Some(sfields) => {
                    let (res, bd) = spec_state_entity(fields.last().key, sfields);
                    match res {
                        Some(s) => Some((ss.push(s), ds + bd)),
                        None => Some((ss, ds + bd)),
                    }
                },
            },
        }
    }
}

/// Driving over every file-level wrapper block and flattening the
/// states they hold.
pub open spec fn spec_states_drive(pairs: Seq<(Seq<char>, ValueV)>) -> Option<
    (Seq<StateV>, Seq<DiagV>),
>
    decreases pairs.len(),
{
    if pairs.len() == 0 {
        Some((Seq::empty(), Seq::empty()))
    } else {
        match spec_states_drive(pairs.drop_last()) {
            None => None,
            Some((ss, ds)) => match spec_obj_fields(pairs.last().1) {
                None => None,
                Some(fields) => match spec_states_inner(fields) {
                    None => None,
                    Some((ss2, ds2)) => Some((ss + ss2, ds + ds2)),
                },
            },
        }
    }
}

/// The view of a list of states.
pub open spec fn states_view(s: Seq<State>) -> Seq<StateV> {
    s.map_values(|e: State| e@)
}

/// What parsing a whole states file yields.
pub open spec fn spec_parse_states(s: Seq<char>) -> Option<(Seq<StateV>, Seq<DiagV>)> {
    match spec_parse_text(s) {
        None => None,
        Some(pairs) => spec_states_drive(pairs),
    }
}

/// Once a prefix fails structurally, the whole file fails.
proof fn lemma_states_drive_none(pairs: Seq<(Seq<char>, ValueV)>, k: int)
    requires
        0 <= k <= pairs.len(),
        spec_states_drive(pairs.take(k)) is None,
    ensures
        spec_states_drive(pairs) is None,
    decreases pairs.len() - k,
{
    if k == pairs.len() {
        assert(pairs.take(k) =~= pairs);
    } else {
        assert(pairs.take(k + 1).drop_last() =~= pairs.take(k));
        lemma_states_drive_none(pairs, k + 1);
    }
}

/// Once a prefix of a wrapper block fails structurally, the block
/// fails.
proof fn lemma_states_inner_none(fields: Seq<FieldV>, k: int)
    requires
        0 <= k <= fields.len(),
        spec_states_inner(fields.take(k)) is None,
    ensures
        spec_states_inner(fields) is None,
    decreases fields.len() - k,
{
    if k == fields.len() {
        assert(fields.take(k) =~= fields);
    } else {
        assert(fields.take(k + 1).drop_last() =~= fields.take(k));
        lemma_states_inner_none(fields, k + 1);
    }
}

/// Parses a whole states file into its states and the diagnostics the
/// builders recorded.
pub fn parse_states(text: &str) -> (r: Result<(Vec<State>, Vec<Diagnostic>), ()>)
    ensures
        match spec_parse_states(text@) {
            None => r is Err,
            Some((ss, ds)) => r is Ok && states_view(r->Ok_0.0@) == ss
                && crate::logger::diags_view(r->Ok_0.1@) == ds,
        },
{
    let pairs = match parse_root_fields(text) {
        Some(p) => p,
        None => {
            return Err(());
        },
    };
    let ghost pairs_v = spec_parse_text(text@).unwrap();
    proof {
        assert(pairs_v.len() == pairs@.len());
        assert(forall|j: int|
            0 <= j < pairs@.len() ==> pairs_v[j] == (#[trigger] pairs@[j].0@, pairs@[j].1@));
    }
    let mut states: Vec<State> = Vec::new();
    let mut diags: Vec<Diagnostic> = Vec::new();
    let mut i: usize = 0;
    while i < pairs.len()
        invariant
            spec_parse_text(text@) == Some(pairs_v),
            i <= pairs@.len(),
            pairs_v.len() == pairs@.len(),
            forall|j: int|
                0 <= j < pairs@.len() ==> pairs_v[j] == (
                #[trigger] pairs@[j].0@,
                pairs@[j].1@,
                ),
            spec_states_drive(pairs_v.take(i as int)) == Some(
                (states_view(states@), crate::logger::diags_view(diags@)),
            ),
        decreases pairs@.len() - i,
    {
        proof {
            assert(pairs_v.take(i + 1 as int).drop_last() =~= pairs_v.take(i as int));
            assert(pairs_v.take(i + 1 as int).last() == pairs_v[i as int]);
            assert(pairs_v[i as int] == (pairs@[i as int].0@, pairs@[i as int].1@));
        }
        let value = &pairs[i].1;
        match value {
            Value::Object(fs) => {
                let ghost fields_v = value@->Object_0;
                proof {
                    crate::value::lemma_object_view(value);
                }
                let mut inner_states: Vec<State> = Vec::new();
                let mut inner_diags: Vec<Diagnostic> = Vec::new();
                let mut j: usize = 0;
                while j < fs.len()
                    invariant
                        spec_parse_text(text@) == Some(pairs_v),
                        0 <= i < pairs_v.len(),
                        pairs_v[i as int].1 is Object,
                        fields_v == pairs_v[i as int].1->Object_0,
                        spec_states_drive(pairs_v.take(i as int)) == Some(
                            (states_view(states@), crate::logger::diags_view(diags@)),
                        ),
                        j <= fs@.len(),
                        fields_v.len() == fs@.len(),
                        forall|k: int| 0 <= k < fs@.len() ==> fields_v[k] == #[trigger] fs@[k]@,
                        spec_states_inner(fields_v.take(j as int)) == Some(
                            (
                                states_view(inner_states@),
                                crate::logger::diags_view(inner_diags@),
                            ),
                        ),
                    decreases fs@.len() - j,
                {
                    proof {
                        assert(fields_v.take(j + 1 as int).drop_last() =~= fields_v.take(
                            j as int,
                        ));
                        assert(fields_v.take(j + 1 as int).last() == fields_v[j as int]);
                        assert(fs@[j as int]@ == (FieldV {
                            key: fs@[j as int].key@,
                            val: fs@[j as int].val@,
                        }));
                        assert(fields_v[j as int] == fs@[j as int]@);
                    }
                    let mut b = InnerStateBuilder::new();
                    b.apply_root(&fs[j].key);
                    let sval = &fs[j].val;
                    match sval {
                        Value::Object(sfs) => {
                            let ghost sfields_v = sval@->Object_0;
                            proof {
                                crate::value::lemma_object_view(sval);
                            }
                            let mut k: usize = 0;
                            while k < sfs.len()
                                invariant
                                    0 <= j < fields_v.len(),
                                    k <= sfs@.len(),
                                    sfields_v.len() == sfs@.len(),
                                    forall|m: int|
                                        0 <= m < sfs@.len() ==> sfields_v[m]
                                            == #[trigger] sfs@[m]@,
                                    b@ == spec_state_apply_fields(
                                        spec_state_apply_root(
                                            spec_state_new(),
                                            fields_v[j as int].key,
                                        ),
                                        sfields_v.take(k as int),
                                    ),
                                decreases sfs@.len() - k,
                            {
                                proof {
                                    assert(sfields_v.take(k + 1 as int).drop_last()
                                        =~= sfields_v.take(k as int));
                                    assert(sfields_v.take(k + 1 as int).last() == sfields_v[
                                        k as int
                                    ]);
                                    assert(sfs@[k as int]@ == (FieldV {
                                        key: sfs@[k as int].key@,
                                        val: sfs@[k as int].val@,
                                    }));
                                    assert(sfields_v[k as int] == sfs@[k as int]@);
                                }
                                let _ = b.apply(&sfs[k].key, &sfs[k].val);
                                k = k + 1;
                            }
                            proof {
                                assert(sfields_v.take(sfields_v.len() as int) =~= sfields_v);
                            }
                        },
                        Value::Absent => {
                            proof {
                                assert(sval@ is Absent);
                                assert(b@ == spec_state_apply_fields(
                                    spec_state_apply_root(
                                        spec_state_new(),
                                        fields_v[j as int].key,
                                    ),
                                    Seq::<FieldV>::empty(),
                                ));
                            }
                        },
                        _ => {
                            proof {
                                if *sval is Scalar {
                                    assert(sval@ is Scalar);
                                } else {
                                    assert(sval@ is Array);
                                }
                                assert(spec_obj_fields(fields_v[j as int].val) is None);
                                assert(spec_states_inner(fields_v.take(j + 1 as int)) is None);
                                lemma_states_inner_none(fields_v, j + 1 as int);
                                assert(spec_states_inner(fields_v) is None);
                                assert(spec_states_drive(pairs_v.take(i + 1 as int)) is None);
                                lemma_states_drive_none(pairs_v, i + 1 as int);
                            }
                            return Err(());
                        },
                    }
                    let (res, mut bd) = b.build();
                    match res {
                        Ok(s) => {
                            inner_states.push(s);
                        },
                        Err(_) => {},
                    }
                    inner_diags.append(&mut bd);
                    proof {
                        assert(states_view(inner_states@) =~= match spec_states_inner(
                            fields_v.take(j + 1 as int),
                        ) {
                            Some((ss, _)) => ss,
                            None => Seq::empty(),
                        });
                        assert(crate::logger::diags_view(inner_diags@) =~= match spec_states_inner(
                            fields_v.take(j + 1 as int),
                        ) {
                            Some((_, ds)) => ds,
                            None => Seq::empty(),
                        });
                    }
                    j = j + 1;
                }
                proof {
                    assert(fields_v.take(fields_v.len() as int) =~= fields_v);
                }
                let ghost pre_states = states_view(states@);
                let ghost pre_diags = crate::logger::diags_view(diags@);
                let ghost add_states = states_view(inner_states@);
                let ghost add_diags = crate::logger::diags_view(inner_diags@);
                states.append(&mut inner_states);
                diags.append(&mut inner_diags);
                proof {
                    assert(states_view(states@) =~= pre_states + add_states);
                    assert(crate::logger::diags_view(diags@) =~= pre_diags + add_diags);
                }
            },
            Value::Absent => {
                proof {
                    assert(value@ is Absent);
                    assert(spec_states_inner(Seq::<FieldV>::empty()) == Some(
                        (Seq::<StateV>::empty(), Seq::<DiagV>::empty()),
                    ));
                    assert(states_view(states@) + Seq::<StateV>::empty() =~= states_view(
                        states@,
                    ));
                    assert(crate::logger::diags_view(diags@) + Seq::<DiagV>::empty()
                        =~= crate::logger::diags_view(diags@));
                }
            },
            _ => {
                proof {
                    if *value is Scalar {
                        assert(value@ is Scalar);
                    } else {
                        assert(value@ is Array);
                    }
                    assert(spec_obj_fields(pairs_v[i as int].1) is None);
                    assert(spec_states_drive(pairs_v.take(i + 1 as int)) is None);
                    lemma_states_drive_none(pairs_v, i + 1 as int);
                }
                return Err(());
            },
        }
        i = i + 1;
    }
    proof {
        assert(pairs_v.take(pairs_v.len() as int) =~= pairs_v);
    }
    Ok((states, diags))
}

/// The canonical text of one division block.
pub open spec fn spec_div_to_pdx(d: StateDivisionV) -> Seq<char> {
    "create_state = {\ncountry = "@ + d.country + "\n"@ + (match d.state_type {
        Some(t) => "state_type = "@ + t + "\n"@,
        None => "# state_type = incorporated\n"@,
    }) + "owned_provinces = {"@ + spec_words(d.provinces) + " }\n}\n"@
}

/// The concatenated division blocks of a state.
pub open spec fn spec_div_blocks(ds: Seq<StateDivisionV>) -> Seq<char>
    decreases ds.len(),
{
    if ds.len() == 0 {
        Seq::empty()
    } else {
        spec_div_blocks(ds.drop_last()) + spec_div_to_pdx(ds.last())
    }
}

/// The `add_homeland` lines of a state.
pub open spec fn spec_homeland_lines(hs: Seq<Seq<char>>) -> Seq<char>
    decreases hs.len(),
{
    if hs.len() == 0 {
        Seq::empty()
    } else {
        spec_homeland_lines(hs.drop_last()) + "add_homeland = "@ + hs.last() + "\n"@
    }
}

/// The canonical text of one state block: the homelands, then the
/// divisions or their comment placeholder.
pub open spec fn spec_state_to_pdx(s: StateV) -> Seq<char> {
    s.name + " = {\n"@ + spec_homeland_lines(s.homelands) + (match s.divisions {
        Some(ds) => spec_div_blocks(ds),
        None => "# No Divisions\n"@,
    }) + "}"@
}

/// The state blocks of a whole file, each ended by a newline.
pub open spec fn spec_state_blocks(ss: Seq<StateV>) -> Seq<char>
    decreases ss.len(),
{
    if ss.len() == 0 {
        Seq::empty()
    } else {
        spec_state_blocks(ss.drop_last()) + spec_state_to_pdx(ss.last()) + "\n"@
    }
}

/// The canonical text of a whole states file: one wrapper block holding
/// every state.
pub open spec fn spec_states_file_to_pdx(ss: Seq<StateV>) -> Seq<char> {
    "STATES = {\n"@ + spec_state_blocks(ss) + "}"@
}

impl StateDivision {
    /// Renders this division as canonical script text.
    pub fn to_pdx(&self) -> (r: String)
        ensures
            r@ == spec_div_to_pdx(self@),
    {
        let mut out = String::new();
        out.append("create_state = {\ncountry = ");
        out.append(self.country.as_str());
        out.append("\n");
        match &self.state_type {
            Some(t) => {
                out.append("state_type = ");
                out.append(t.as_str());
                out.append("\n");
            },
            None => {
                out.append("# state_type = incorporated\n");
            },
        }
        out.append("owned_provinces = {");
        crate::country_definition::append_words(&mut out, &self.provinces);
        out.append(" }\n}\n");
        out
    }
}

impl State {
    /// Renders this state as one canonical block.
    pub fn to_pdx(&self) -> (r: String)
        ensures
            r@ == spec_state_to_pdx(self@),
    {
        let mut out = String::new();
        out.append(self.name.as_str());
        out.append(" = {\n");
        let mut i: usize = 0;
        while i < self.homelands.len()
            invariant
                i <= self.homelands@.len(),
                out@ == self.name@ + " = {\n"@ + spec_homeland_lines(
                    texts_view(self.homelands@).take(i as int),
                ),
            decreases self.homelands@.len() - i,
        {
            proof {
                assert(texts_view(self.homelands@).take(i + 1 as int).drop_last() =~= texts_view(
                    self.homelands@,
                ).take(i as int));
                assert(texts_view(self.homelands@).take(i + 1 as int).last() == self.homelands@[
                    i as int
                ]@);
            }
            out.append("add_homeland = ");
            out.append(self.homelands[i].as_str());
            out.append("\n");
            i = i + 1;
        }
        proof {
            assert(texts_view(self.homelands@).take(self.homelands@.len() as int) =~= texts_view(
                self.homelands@,
            ));
        }
        match &self.divisions {
            Some(ds) => {
                let mut j: usize = 0;
                while j < ds.len()
                    invariant
                        j <= ds@.len(),
                        out@ == self.name@ + " = {\n"@ + spec_homeland_lines(
                            texts_view(self.homelands@),
                        ) + spec_div_blocks(divs_view(ds@).take(j as int)),
                    decreases ds@.len() - j,
                {
                    proof {
                        assert(divs_view(ds@).take(j + 1 as int).drop_last() =~= divs_view(
                            ds@,
                        ).take(j as int));
                        assert(divs_view(ds@).take(j + 1 as int).last() == ds@[j as int]@);
                    }
                    let block = ds[j].to_pdx();
                    out.append(block.as_str());
                    j = j + 1;
                }
                proof {
                    assert(divs_view(ds@).take(ds@.len() as int) =~= divs_view(ds@));
                }
            },
            None => {
                out.append("# No Divisions\n");
            },
        }
        out.append("}");
        out
    }
}

/// Renders a whole states file: one wrapper block holding every state.
pub fn states_file_to_pdx(states: &Vec<State>) -> (r: String)
    ensures
        r@ == spec_states_file_to_pdx(states_view(states@)),
{
    let mut out = String::from_str("STATES = {\n");
    let mut i: usize = 0;
    while i < states.len()
        invariant
            i <= states@.len(),
            out@ == "STATES = {\n"@ + spec_state_blocks(states_view(states@).take(i as int)),
        decreases states@.len() - i,
    {
        proof {
            assert(states_view(states@).take(i + 1 as int).drop_last() =~= states_view(
                states@,
            ).take(i as int));
            assert(states_view(states@).take(i + 1 as int).last() == states@[i as int]@);
        }
        let block = states[i].to_pdx();
        out.append(block.as_str());
        out.append("\n");
        i = i + 1;
    }
    proof {
        assert(states_view(states@).take(states@.len() as int) =~= states_view(states@));
    }
    out.append("}");
    out
}

} // verus!

