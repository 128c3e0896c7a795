//! The assembled collection of parsed entities: one slot per file name
//! and entity kind, keyed by file name with insertion order kept.
use vstd::prelude::*;
use crate::country_definition::{cds_view, CountryDefinition, CountryDefinitionV};
use crate::culture::{cultures_view, Culture, CultureV};
use crate::state::{states_view, State, StateV};
use crate::text::str_eq;

verus! {

/// One file's worth of country definitions.
pub struct CdFile {
    pub name: String,
    pub entries: Vec<CountryDefinition>,
}

/// Specification-level mirror of [`CdFile`].
#[verifier::ext_equal]
pub struct CdFileV {
    pub name: Seq<char>,
    pub entries: Seq<CountryDefinitionV>,
}

impl View for CdFile {
    type V = CdFileV;

    open spec fn view(&self) -> CdFileV {
        CdFileV { name: self.name@, entries: cds_view(self.entries@) }
    }
}

/// One file's worth of cultures.
pub struct CultureFile {
    pub name: String,
    pub entries: Vec<Culture>,
}

/// Specification-level mirror of [`CultureFile`].
#[verifier::ext_equal]
pub struct CultureFileV {
    pub name: Seq<char>,
    pub entries: Seq<CultureV>,
}

impl View for CultureFile {
    type V = CultureFileV;

    open spec fn view(&self) -> CultureFileV {
        CultureFileV { name: self.name@, entries: cultures_view(self.entries@) }
    }
}

/// One file's worth of states.
pub struct StateFile {
    pub name: String,
    pub entries: Vec<State>,
}

/// Specification-level mirror of [`StateFile`].
#[verifier::ext_equal]
pub struct StateFileV {
    pub name: Seq<char>,
    pub entries: Seq<StateV>,
}

impl View for StateFile {
    type V = StateFileV;

    open spec fn view(&self) -> StateFileV {
        StateFileV { name: self.name@, entries: states_view(self.entries@) }
    }
}

/// The views of the file lists.
pub open spec fn cd_files_view(s: Seq<CdFile>) -> Seq<CdFileV> {
    s.map_values(|f: CdFile| f@)
}

/// The views of the culture file list.
pub open spec fn culture_files_view(s: Seq<CultureFile>) -> Seq<CultureFileV> {
    s.map_values(|f: CultureFile| f@)
}

/// The views of the state file list.
pub open spec fn state_files_view(s: Seq<StateFile>) -> Seq<StateFileV> {
    s.map_values(|f: StateFile| f@)
}

/// The country-definition slots after recording `name -> entries`: the
/// first slot whose name matches is replaced in place, and a new slot is
/// appended when none matches. Slots built only this way never repeat a
/// name, so the list is a mapping with its insertion order kept.
pub open spec fn spec_set_cd_file(
    files: Seq<CdFileV>,
    name: Seq<char>,
    entries: Seq<CountryDefinitionV>,
) -> Seq<CdFileV>
    decreases files.len(),
{
    if files.len() == 0 {
        seq![CdFileV { name: name, entries: entries }]
    } else if files[0].name == name {
        seq![CdFileV { name: name, entries: entries }] + files.drop_first()
    } else {
        seq![files[0]] + spec_set_cd_file(files.drop_first(), name, entries)
    }
}

/// The culture slots after recording `name -> entries`, replacing the
/// first matching slot or appending a new one.
pub open spec fn spec_set_culture_file(
    files: Seq<CultureFileV>,
    name: Seq<char>,
    entries: Seq<CultureV>,
) -> Seq<CultureFileV>
    decreases files.len(),
{
    if files.len() == 0 {
        seq![CultureFileV { name: name, entries: entries }]
    } else if files[0].name == name {
        seq![CultureFileV { name: name, entries: entries }] + files.drop_first()
    } else {
        seq![files[0]] + spec_set_culture_file(files.drop_first(), name, entries)
    }
}

/// The state slots after recording `name -> entries`, replacing the
/// first matching slot or appending a new one.
pub open spec fn spec_set_state_file(
    files: Seq<StateFileV>,
    name: Seq<char>,
    entries: Seq<StateV>,
) -> Seq<StateFileV>
    decreases files.len(),
{
    if files.len() == 0 {
        seq![StateFileV { name: name, entries: entries }]
    } else if files[0].name == name {
        seq![StateFileV { name: name, entries: entries }] + files.drop_first()
    } else {
        seq![files[0]] + spec_set_state_file(files.drop_first(), name, entries)
    }
}

/// With no slot of that name present, recording appends a new slot.
proof fn lemma_set_cd_no_match(files: Seq<CdFileV>, name: Seq<char>, entries: Seq<
    CountryDefinitionV,
>)
    requires
        forall|i: int| 0 <= i < files.len() ==> files[i].name != name,
    ensures
        spec_set_cd_file(files, name, entries) == files.push(
            CdFileV { name: name, entries: entries },
        ),
    decreases files.len(),
{
    let slot = CdFileV { name: name, entries: entries };
    if files.len() == 0 {
        assert(spec_set_cd_file(files, name, entries) =~= files.push(slot));
    } else {
        assert(forall|i: int|
            0 <= i < files.drop_first().len() ==> #[trigger] files.drop_first()[i] == files[i + 1]);
        lemma_set_cd_no_match(files.drop_first(), name, entries);
        assert(seq![files[0]] + files.drop_first().push(slot) =~= files.push(slot));
    }
}

/// With the first matching slot at `k`, recording replaces that slot.
proof fn lemma_set_cd_match(
    files: Seq<CdFileV>,
    name: Seq<char>,
    entries: Seq<CountryDefinitionV>,
    k: int,
)
    requires
        0 <= k < files.len(),
        files[k].name == name,
        forall|i: int| 0 <= i < k ==> files[i].name != name,
    ensures
        spec_set_cd_file(files, name, entries) == files.update(
            k,
            CdFileV { name: name, entries: entries },
        ),
    decreases files.len(),
{
    let slot = CdFileV { name: name, entries: entries };
    if k == 0 {
        assert(seq![slot] + files.drop_first() =~= files.update(0, slot));
    } else {
        assert(forall|i: int|
            0 <= i < files.drop_first().len() ==> #[trigger] files.drop_first()[i] == files[i + 1]);
        lemma_set_cd_match(files.drop_first(), name, entries, k - 1);
        assert(seq![files[0]] + files.drop_first().update(k - 1, slot) =~= files.update(k, slot));
    }
}

/// With no slot of that name present, recording appends a new slot.
proof fn lemma_set_culture_no_match(files: Seq<CultureFileV>, name: Seq<char>, entries: Seq<
    CultureV,
>)
    requires
        forall|i: int| 0 <= i < files.len() ==> files[i].name != name,
    ensures
        spec_set_culture_file(files, name, entries) == files.push(
            CultureFileV { name: name, entries: entries },
        ),
    decreases files.len(),
{
    let slot = CultureFileV { name: name, entries: entries };
    if files.len() == 0 {
        assert(spec_set_culture_file(files, name, entries) =~= files.push(slot));
    } else {
        assert(forall|i: int|
            0 <= i < files.drop_first().len() ==> #[trigger] files.drop_first()[i] == files[i + 1]);
        lemma_set_culture_no_match(files.drop_first(), name, entries);
        assert(seq![files[0]] + files.drop_first().push(slot) =~= files.push(slot));
    }
}

/// With the first matching slot at `k`, recording replaces that slot.
proof fn lemma_set_culture_match(
    files: Seq<CultureFileV>,
    name: Seq<char>,
    entries: Seq<CultureV>,
    k: int,
)
    requires
        0 <= k < files.len(),
        files[k].name == name,
        forall|i: int| 0 <= i < k ==> files[i].name != name,
    ensures
        spec_set_culture_file(files, name, entries) == files.update(
            k,
            CultureFileV { name: name, entries: entries },
        ),
    decreases files.len(),
{
    let slot = CultureFileV { name: name, entries: entries };
    if k == 0 {
        assert(seq![slot] + files.drop_first() =~= files.update(0, slot));
    } else {
        assert(forall|i: int|
            0 <= i < files.drop_first().len() ==> #[trigger] files.drop_first()[i] == files[i + 1]);
        lemma_set_culture_match(files.drop_first(), name, entries, k - 1);
        assert(seq![files[0]] + files.drop_first().update(k - 1, slot) =~= files.update(k, slot));
    }
}

/// With no slot of that name present, recording appends a new slot.
proof fn lemma_set_state_no_match(files: Seq<StateFileV>, name: Seq<char>, entries: Seq<StateV>)
    requires
        forall|i: int| 0 <= i < files.len() ==> files[i].name != name,
    ensures
        spec_set_state_file(files, name, entries) == files.push(
            StateFileV { name: name, entries: entries },
        ),
    decreases files.len(),
{
    let slot = StateFileV { name: name, entries: entries };
    if files.len() == 0 {
        assert(spec_set_state_file(files, name, entries) =~= files.push(slot));
    } else {
        assert(forall|i: int|
            0 <= i < files.drop_first().len() ==> #[trigger] files.drop_first()[i] == files[i + 1]);
        lemma_set_state_no_match(files.drop_first(), name, entries);
        assert(seq![files[0]] + files.drop_first().push(slot) =~= files.push(slot));
    }
}

/// With the first matching slot at `k`, recording replaces that slot.
proof fn lemma_set_state_match(
    files: Seq<StateFileV>,
    name: Seq<char>,
    entries: Seq<StateV>,
    k: int,
)
    requires
        0 <= k < files.len(),
        files[k].name == name,
        forall|i: int| 0 <= i < k ==> files[i].name != name,
    ensures
        spec_set_state_file(files, name, entries) == files.update(
            k,
            StateFileV { name: name, entries: entries },
        ),
    decreases files.len(),
{
    let slot = StateFileV { name: name, entries: entries };
    if k == 0 {
        assert(seq![slot] + files.drop_first() =~= files.update(0, slot));
    } else {
        assert(forall|i: int|
            0 <= i < files.drop_first().len() ==> #[trigger] files.drop_first()[i] == files[i + 1]);
        lemma_set_state_match(files.drop_first(), name, entries, k - 1);
        assert(seq![files[0]] + files.drop_first().update(k - 1, slot) =~= files.update(k, slot));
    }
}

/// The whole mod's parsed content: three mappings from file name to the
/// entities read from it, in insertion order.
pub struct ModState {
    pub country_definition_files: Vec<CdFile>,
    pub culture_files: Vec<CultureFile>,
    pub state_files: Vec<StateFile>,
}

impl ModState {
    /// An empty collection.
    pub fn new() -> (r: ModState)
        ensures
            cd_files_view(r.country_definition_files@) == Seq::<CdFileV>::empty(),
            culture_files_view(r.culture_files@) == Seq::<CultureFileV>::empty(),
            state_files_view(r.state_files@) == Seq::<StateFileV>::empty(),
    {
        let r = ModState {
            country_definition_files: Vec::new(),
            culture_files: Vec::new(),
            state_files: Vec::new(),
        };
        proof {
            assert(cd_files_view(r.country_definition_files@) =~= Seq::<CdFileV>::empty());
            assert(culture_files_view(r.culture_files@) =~= Seq::<CultureFileV>::empty());
            assert(state_files_view(r.state_files@) =~= Seq::<StateFileV>::empty());
        }
        r
    }

    /// The country-definition files read so far.
    pub fn get_country_definition_files(&self) -> (r: &Vec<CdFile>)
        ensures
            r == &self.country_definition_files,
    {
        &self.country_definition_files
    }

    /// The culture files read so far.
    pub fn get_culture_files(&self) -> (r: &Vec<CultureFile>)
        ensures
            r == &self.culture_files,
    {
        &self.culture_files
    }

    /// The state files read so far.
    pub fn get_state_files(&self) -> (r: &Vec<StateFile>)
        ensures
            r == &self.state_files,
    {
        &self.state_files
    }

    /// Records one file's country definitions: the slot carrying that
    /// file name is replaced in place, or a new slot is appended when no
    /// slot carries it yet.
    pub fn set_country_definitions_file(&mut self, file_name: String, definitions: Vec<
        CountryDefinition,
    >)
        ensures
            cd_files_view(final(self).country_definition_files@) == spec_set_cd_file(
                cd_files_view(old(self).country_definition_files@),
                file_name@,
                cds_view(definitions@),
            ),
            final(self).culture_files == old(self).culture_files,
            final(self).state_files == old(self).state_files,
    {
        let ghost files0 = cd_files_view(self.country_definition_files@);
        let n = self.country_definition_files.len();
        let mut i: usize = 0;
        while i < n
            invariant
                *self == *old(self),
                n == self.country_definition_files@.len(),
                files0 == cd_files_view(self.country_definition_files@),
                i <= n,
                forall|j: int| 0 <= j < i ==> files0[j].name != file_name@,
            decreases n - i,
        {
            if str_eq(self.country_definition_files[i].name.as_str(), file_name.as_str()) {
                proof {
                    assert(files0[i as int].name == file_name@);
                }
                let _ = self.country_definition_files.remove(i);
                self.country_definition_files.insert(
                    i,
                    CdFile { name: file_name, entries: definitions },
                );
                proof {
                    let slot = CdFileV { name: files0[i as int].name, entries: cds_view(definitions@) };
                    lemma_set_cd_match(files0, slot.name, slot.entries, i as int);
                    assert(self.country_definition_files@ =~= old(
                        self,
                    ).country_definition_files@.update(
                        i as int,
                        self.country_definition_files@[i as int],
                    ));
                    assert(cd_files_view(self.country_definition_files@) =~= files0.update(
                        i as int,
                        slot,
                    ));
                }
                return ;
            }
            i = i + 1;
        }
        proof {
            lemma_set_cd_no_match(files0, file_name@, cds_view(definitions@));
        }
        self.country_definition_files.push(CdFile { name: file_name, entries: definitions });
        proof {
            assert(cd_files_view(self.country_definition_files@) =~= files0.push(
                CdFileV {
                    name: self.country_definition_files@.last().name@,
                    entries: cds_view(self.country_definition_files@.last().entries@),
                },
            ));
        }
    }

    /// Records one file's cultures: the slot carrying that file name is
    /// replaced in place, or a new slot is appended when no slot carries
    /// it yet.
    pub fn set_cultures_file(&mut self, file_name: String, cultures: Vec<Culture>)
        ensures
            culture_files_view(final(self).culture_files@) == spec_set_culture_file(
                culture_files_view(old(self).culture_files@),
                file_name@,
                cultures_view(cultures@),
            ),
            final(self).country_definition_files == old(self).country_definition_files,
            final(self).state_files == old(self).state_files,
    {
        let ghost files0 = culture_files_view(self.culture_files@);
        let n = self.culture_files.len();
        let mut i: usize = 0;
        while i < n
            invariant
                *self == *old(self),
                n == self.culture_files@.len(),
                files0 == culture_files_view(self.culture_files@),
                i <= n,
                forall|j: int| 0 <= j < i ==> files0[j].name != file_name@,
            decreases n - i,
        {
            if str_eq(self.culture_files[i].name.as_str(), file_name.as_str()) {
                proof {
                    assert(files0[i as int].name == file_name@);
                }
                let _ = self.culture_files.remove(i);
                self.culture_files.insert(i, CultureFile { name: file_name, entries: cultures });
                proof {
                    let slot = CultureFileV {
                        name: files0[i as int].name,
                        entries: cultures_view(cultures@),
                    };
                    lemma_set_culture_match(files0, slot.name, slot.entries, i as int);
                    assert(self.culture_files@ =~= old(self).culture_files@.update(
                        i as int,
                        self.culture_files@[i as int],
                    ));
                    assert(culture_files_view(self.culture_files@) =~= files0.update(
                        i as int,
                        slot,
                    ));
                }
                return ;
            }
            i = i + 1;
        }
        proof {
            lemma_set_culture_no_match(files0, file_name@, cultures_view(cultures@));
        }
        self.culture_files.push(CultureFile { name: file_name, entries: cultures });
        proof {
            assert(culture_files_view(self.culture_files@) =~= files0.push(
                CultureFileV {
                    name: self.culture_files@.last().name@,
                    entries: cultures_view(self.culture_files@.last().entries@),
                },
            ));
        }
    }

    /// Records one file's states: the slot carrying that file name is
    /// replaced in place, or a new slot is appended when no slot carries
    /// it yet.
    pub fn set_state_file(&mut self, file_name: String, states: Vec<State>)
        ensures
            state_files_view(final(self).state_files@) == spec_set_state_file(
                state_files_view(old(self).state_files@),
                file_name@,
                states_view(states@),
            ),
            final(self).country_definition_files == old(self).country_definition_files,
            final(self).culture_files == old(self).culture_files,
    {
        let ghost files0 = state_files_view(self.state_files@);
        let n = self.state_files.len();
        let mut i: usize = 0;
        while i < n
            invariant
                *self == *old(self),
                n == self.state_files@.len(),
                files0 == state_files_view(self.state_files@),
                i <= n,
                forall|j: int| 0 <= j < i ==> files0[j].name != file_name@,
            decreases n - i,
        {
            if str_eq(self.state_files[i].name.as_str(), file_name.as_str()) {
                proof {
                    assert(files0[i as int].name == file_name@);
                }
                let _ = self.state_files.remove(i);
                self.state_files.insert(i, StateFile { name: file_name, entries: states });
                proof {
                    let slot = StateFileV {
                        name: files0[i as int].name,
                        entries: states_view(states@),
                    };
                    lemma_set_state_match(files0, slot.name, slot.entries, i as int);
                    assert(self.state_files@ =~= old(self).state_files@.update(
                        i as int,
                        self.state_files@[i as int],
                    ));
                    assert(state_files_view(self.state_files@) =~= files0.update(i as int, slot));
                }
                return ;
            }
            i = i + 1;
        }
        proof {
            lemma_set_state_no_match(files0, file_name@, states_view(states@));
        }
        self.state_files.push(StateFile { name: file_name, entries: states });
        proof {
            assert(state_files_view(self.state_files@) =~= files0.push(
                StateFileV {
                    name: self.state_files@.last().name@,
                    entries: states_view(self.state_files@.last().entries@),
                },
            ));
        }
    }
}

} // verus!
