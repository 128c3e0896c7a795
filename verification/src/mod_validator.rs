//! Cross-entity consistency checks over an assembled [`ModState`]:
//! every referenced culture must be defined somewhere, and no country
//! tag may be used twice. Both checks are total: they walk everything
//! and return the full diagnostic list.
use vstd::prelude::*;
use crate::country_definition::CountryDefinitionV;
use crate::logger::{diags_view, DiagV, Diagnostic, LogLevel};
use crate::mod_state::{
    cd_files_view, culture_files_view, CdFileV, CultureFileV, ModState,
};
use crate::text::str_eq;

verus! {

/// Is a culture with this identifier defined in any culture file?
pub open spec fn spec_culture_defined(cu: Seq<CultureFileV>, id: Seq<char>) -> bool {
    exists|i: int, j: int|
        0 <= i < cu.len() && 0 <= j < cu[i].entries.len() && cu[i].entries[j].string_id == id
}

/// The message naming an undefined culture and the offending file.
pub open spec fn spec_undefined_culture_msg(culture: Seq<char>, file: Seq<char>) -> Seq<char> {
    "Culture `"@ + culture + "` is Undefined! @ "@ + file
}

/// The diagnostic for one undefined culture reference.
pub open spec fn spec_undefined_culture_diag(culture: Seq<char>, file: Seq<char>) -> DiagV {
    DiagV { level: LogLevel::Error, message: spec_undefined_culture_msg(culture, file) }
}

/// The diagnostics for one definition's culture references, in order.
pub open spec fn spec_undef_in_cultures(
    cs: Seq<Seq<char>>,
    file: Seq<char>,
    cu: Seq<CultureFileV>,
) -> Seq<DiagV>
    decreases cs.len(),
{
    if cs.len() == 0 {
        Seq::empty()
    } else {
        spec_undef_in_cultures(cs.drop_last(), file, cu) + (if !spec_culture_defined(
            cu,
            cs.last(),
        ) {
            seq![spec_undefined_culture_diag(cs.last(), file)]
        } else {
            Seq::empty()
        })
    }
}

/// The diagnostics for one file's definitions, in order.
pub open spec fn spec_undef_in_defs(
    defs: Seq<CountryDefinitionV>,
    file: Seq<char>,
    cu: Seq<CultureFileV>,
) -> Seq<DiagV>
    decreases defs.len(),
{
    if defs.len() == 0 {
        Seq::empty()
    } else {
        spec_undef_in_defs(defs.drop_last(), file, cu) + spec_undef_in_cultures(
            defs.last().cultures,
            file,
            cu,
        )
    }
}

/// The diagnostics of the cultures-are-defined check, file by file.
pub open spec fn spec_undef_in_files(files: Seq<CdFileV>, cu: Seq<CultureFileV>) -> Seq<DiagV>
    decreases files.len(),
{
    if files.len() == 0 {
        Seq::empty()
    } else {
        spec_undef_in_files(files.drop_last(), cu) + spec_undef_in_defs(
            files.last().entries,
            files.last().name,
            cu,
        )
    }
}

/// Every (tag, file name) pair of the collection, file-then-entity
/// order.
pub open spec fn spec_file_tags(f: CdFileV) -> Seq<(Seq<char>, Seq<char>)> {
    f.entries.map_values(|e: CountryDefinitionV| (e.tag, f.name))
}

/// All tags of all files, in order.
pub open spec fn spec_all_tags(files: Seq<CdFileV>) -> Seq<(Seq<char>, Seq<char>)>
    decreases files.len(),
{
    if files.len() == 0 {
        Seq::empty()
    } else {
        spec_all_tags(files.drop_last()) + spec_file_tags(files.last())
    }
}

/// The message naming a duplicated tag and the offending file.
pub open spec fn spec_duplicate_tag_msg(tag: Seq<char>, file: Seq<char>) -> Seq<char> {
    "Duplicate Tag `"@ + tag + "` @ "@ + file
}

/// The diagnostic for one repeated tag occurrence.
pub open spec fn spec_duplicate_tag_diag(tag: Seq<char>, file: Seq<char>) -> DiagV {
    DiagV { level: LogLevel::Error, message: spec_duplicate_tag_msg(tag, file) }
}

/// The diagnostics of the duplicate-tag scan: each occurrence of a tag
/// after its first yields exactly one diagnostic, in scan order.
pub open spec fn spec_dup_diags(tags: Seq<(Seq<char>, Seq<char>)>) -> Seq<DiagV>
    decreases tags.len(),
{
    if tags.len() == 0 {
        Seq::empty()
    } else {
        spec_dup_diags(tags.drop_last()) + (if exists|j: int|
            0 <= j < tags.len() - 1 && tags[j].0 == tags.last().0 {
            seq![spec_duplicate_tag_diag(tags.last().0, tags.last().1)]
        } else {
            Seq::empty()
        })
    }
}

/// A culture list whose references are all defined contributes no
/// diagnostic.
proof fn lemma_undef_cultures_empty(cs: Seq<Seq<char>>, file: Seq<char>, cu: Seq<CultureFileV>)
    requires
        forall|k: int| 0 <= k < cs.len() ==> spec_culture_defined(cu, #[trigger] cs[k]),
    ensures
        spec_undef_in_cultures(cs, file, cu) == Seq::<DiagV>::empty(),
    decreases cs.len(),
{
    if cs.len() > 0 {
        assert(forall|k: int|
            0 <= k < cs.drop_last().len() ==> #[trigger] cs.drop_last()[k] == cs[k]);
        lemma_undef_cultures_empty(cs.drop_last(), file, cu);
        assert(spec_culture_defined(cu, cs.last()));
        assert(Seq::<DiagV>::empty() + Seq::<DiagV>::empty() =~= Seq::<DiagV>::empty());
    }
}

/// A culture list with exactly one undefined reference contributes
/// exactly its diagnostic.
proof fn lemma_undef_cultures_single(
    cs: Seq<Seq<char>>,
    file: Seq<char>,
    cu: Seq<CultureFileV>,
    k0: int,
)
    requires
        0 <= k0 < cs.len(),
        !spec_culture_defined(cu, cs[k0]),
        forall|k: int|
            0 <= k < cs.len() && k != k0 ==> spec_culture_defined(cu, #[trigger] cs[k]),
    ensures
        spec_undef_in_cultures(cs, file, cu) == seq![spec_undefined_culture_diag(cs[k0], file)],
    decreases cs.len(),
{
    let one = seq![spec_undefined_culture_diag(cs[k0], file)];
    assert(forall|k: int| 0 <= k < cs.drop_last().len() ==> #[trigger] cs.drop_last()[k] == cs[k]);
    if k0 == cs.len() - 1 {
        lemma_undef_cultures_empty(cs.drop_last(), file, cu);
        assert(cs.last() == cs[k0]);
        assert(Seq::<DiagV>::empty() + one =~= one);
    } else {
        lemma_undef_cultures_single(cs.drop_last(), file, cu, k0);
        assert(spec_culture_defined(cu, cs.last()));
        assert(one + Seq::<DiagV>::empty() =~= one);
    }
}

/// A file whose definitions reference only defined cultures contributes
/// no diagnostic.
proof fn lemma_undef_defs_empty(defs: Seq<CountryDefinitionV>, file: Seq<char>, cu: Seq<
    CultureFileV,
>)
    requires
        forall|j: int, k: int|
            0 <= j < defs.len() && 0 <= k < defs[j].cultures.len() ==> spec_culture_defined(
                cu,
                #[trigger] defs[j].cultures[k],
            ),
    ensures
        spec_undef_in_defs(defs, file, cu) == Seq::<DiagV>::empty(),
    decreases defs.len(),
{
    if defs.len() > 0 {
        assert(forall|j: int|
            0 <= j < defs.drop_last().len() ==> #[trigger] defs.drop_last()[j] == defs[j]);
        lemma_undef_defs_empty(defs.drop_last(), file, cu);
        assert(forall|k: int|
            0 <= k < defs.last().cultures.len() ==> spec_culture_defined(
                cu,
                #[trigger] defs.last().cultures[k],
            )) by {
            assert(defs.last() == defs[defs.len() - 1]);
        }
        lemma_undef_cultures_empty(defs.last().cultures, file, cu);
        assert(Seq::<DiagV>::empty() + Seq::<DiagV>::empty() =~= Seq::<DiagV>::empty());
    }
}

/// A definition list with exactly one undefined reference contributes
/// exactly its diagnostic.
proof fn lemma_undef_defs_single(
    defs: Seq<CountryDefinitionV>,
    file: Seq<char>,
    cu: Seq<CultureFileV>,
    j0: int,
    k0: int,
)
    requires
        0 <= j0 < defs.len(),
        0 <= k0 < defs[j0].cultures.len(),
        !spec_culture_defined(cu, defs[j0].cultures[k0]),
        forall|j: int, k: int|
            0 <= j < defs.len() && 0 <= k < defs[j].cultures.len() && !(j == j0 && k == k0)
                ==> spec_culture_defined(cu, #[trigger] defs[j].cultures[k]),
    ensures
        spec_undef_in_defs(defs, file, cu) == seq![
            spec_undefined_culture_diag(defs[j0].cultures[k0], file),
        ],
    decreases defs.len(),
{
    let one = seq![spec_undefined_culture_diag(defs[j0].cultures[k0], file)];
    assert(forall|j: int|
        0 <= j < defs.drop_last().len() ==> #[trigger] defs.drop_last()[j] == defs[j]);
    assert(defs.last() == defs[defs.len() - 1]);
    if j0 == defs.len() - 1 {
        lemma_undef_defs_empty(defs.drop_last(), file, cu);
        lemma_undef_cultures_single(defs.last().cultures, file, cu, k0);
        assert(Seq::<DiagV>::empty() + one =~= one);
    } else {
        lemma_undef_defs_single(defs.drop_last(), file, cu, j0, k0);
        assert(forall|k: int|
            0 <= k < defs.last().cultures.len() ==> spec_culture_defined(
                cu,
                #[trigger] defs.last().cultures[k],
            ));
        lemma_undef_cultures_empty(defs.last().cultures, file, cu);
        assert(one + Seq::<DiagV>::empty() =~= one);
    }
}

/// Law: when exactly one culture reference in the whole collection is
/// undefined — the one at position `k0` of definition `j0` of file `i0`
/// — the cultures-are-defined check yields exactly one diagnostic, and
/// it names that culture and that file.
pub proof fn lemma_one_undefined_culture(
    files: Seq<CdFileV>,
    cu: Seq<CultureFileV>,
    i0: int,
    j0: int,
    k0: int,
)
    requires
        0 <= i0 < files.len(),
        0 <= j0 < files[i0].entries.len(),
        0 <= k0 < files[i0].entries[j0].cultures.len(),
        !spec_culture_defined(cu, files[i0].entries[j0].cultures[k0]),
        forall|i: int, j: int, k: int|
            0 <= i < files.len() && 0 <= j < files[i].entries.len() && 0 <= k
                < files[i].entries[j].cultures.len() && !(i == i0 && j == j0 && k == k0)
                ==> spec_culture_defined(cu, #[trigger] files[i].entries[j].cultures[k]),
    ensures
        spec_undef_in_files(files, cu) == seq![
            spec_undefined_culture_diag(files[i0].entries[j0].cultures[k0], files[i0].name),
        ],
    decreases files.len(),
{
    let one = seq![
        spec_undefined_culture_diag(files[i0].entries[j0].cultures[k0], files[i0].name),
    ];
    assert(forall|i: int|
        0 <= i < files.drop_last().len() ==> #[trigger] files.drop_last()[i] == files[i]);
    assert(files.last() == files[files.len() - 1]);
    if i0 == files.len() - 1 {
        assert(forall|i: int, j: int, k: int|
            0 <= i < files.drop_last().len() && 0 <= j < files.drop_last()[i].entries.len() && 0
                <= k < files.drop_last()[i].entries[j].cultures.len() ==> spec_culture_defined(
                cu,
                #[trigger] files.drop_last()[i].entries[j].cultures[k],
            ));
        lemma_undef_files_empty(files.drop_last(), cu);
        lemma_undef_defs_single(files.last().entries, files.last().name, cu, j0, k0);
        assert(Seq::<DiagV>::empty() + one =~= one);
    } else {
        lemma_one_undefined_culture(files.drop_last(), cu, i0, j0, k0);
        assert(forall|j: int, k: int|
            0 <= j < files.last().entries.len() && 0 <= k
                < files.last().entries[j].cultures.len() ==> spec_culture_defined(
                cu,
                #[trigger] files.last().entries[j].cultures[k],
            ));
        lemma_undef_defs_empty(files.last().entries, files.last().name, cu);
        assert(one + Seq::<DiagV>::empty() =~= one);
    }
}

/// A collection whose definitions reference only defined cultures
/// yields no diagnostic at all.
pub proof fn lemma_undef_files_empty(files: Seq<CdFileV>, cu: Seq<CultureFileV>)
    requires
        forall|i: int, j: int, k: int|
            0 <= i < files.len() && 0 <= j < files[i].entries.len() && 0 <= k
                < files[i].entries[j].cultures.len() ==> spec_culture_defined(
                cu,
                #[trigger] files[i].entries[j].cultures[k],
            ),
    ensures
        spec_undef_in_files(files, cu) == Seq::<DiagV>::empty(),
    decreases files.len(),
{
    if files.len() > 0 {
        assert(forall|i: int|
            0 <= i < files.drop_last().len() ==> #[trigger] files.drop_last()[i] == files[i]);
        lemma_undef_files_empty(files.drop_last(), cu);
        assert(files.last() == files[files.len() - 1]);
        assert(forall|j: int, k: int|
            0 <= j < files.last().entries.len() && 0 <= k
                < files.last().entries[j].cultures.len() ==> spec_culture_defined(
                cu,
                #[trigger] files.last().entries[j].cultures[k],
            ));
        lemma_undef_defs_empty(files.last().entries, files.last().name, cu);
        assert(Seq::<DiagV>::empty() + Seq::<DiagV>::empty() =~= Seq::<DiagV>::empty());
    }
}

/// Does the whole collection pass validation? Exactly when neither
/// check yields a diagnostic.
pub open spec fn spec_mod_valid(files: Seq<CdFileV>, cu: Seq<CultureFileV>) -> bool {
    spec_undef_in_files(files, cu) == Seq::<DiagV>::empty() && spec_dup_diags(
        spec_all_tags(files),
    ) == Seq::<DiagV>::empty()
}

/// Is a culture with identifier `id` defined in any of `files`?
fn culture_is_defined(files: &Vec<crate::mod_state::CultureFile>, id: &String) -> (r: bool)
    ensures
        r == spec_culture_defined(culture_files_view(files@), id@),
{
    let ghost cu = culture_files_view(files@);
    let mut i: usize = 0;
    while i < files.len()
        invariant
            cu == culture_files_view(files@),
            i <= files@.len(),
            cu.len() == files@.len(),
            forall|a: int, b: int|
                0 <= a < i && 0 <= b < cu[a].entries.len() ==> cu[a].entries[b].string_id != id@,
        decreases files@.len() - i,
    {
        let entries = &files[i].entries;
        let mut j: usize = 0;
        while j < entries.len()
            invariant
                cu == culture_files_view(files@),
                0 <= i < files@.len(),
                cu.len() == files@.len(),
                entries == &files@[i as int].entries,
                j <= entries@.len(),
                cu[i as int].entries.len() == entries@.len(),
                forall|b: int|
                    0 <= b < entries@.len() ==> cu[i as int].entries[b] == #[trigger] entries@[b]@,
                forall|b: int| 0 <= b < j ==> cu[i as int].entries[b].string_id != id@,
            decreases entries@.len() - j,
        {
            if str_eq(entries[j].string_id.as_str(), id.as_str()) {
                proof {
                    assert(cu[i as int].entries[j as int].string_id == id@);
                }
                return true;
            }
            j = j + 1;
        }
        i = i + 1;
    }
    proof {
        assert(!spec_culture_defined(cu, id@));
    }
    false
}

/// The validator: pure cross-entity checks over the assembled state.
pub struct ModValidator {}

impl ModValidator {
    /// A validator.
    pub fn new() -> (r: ModValidator) {
        ModValidator {}
    }

    /// A validator on the heap.
    pub fn new_boxed() -> (r: Box<ModValidator>) {
        Box::new(ModValidator::new())
    }

    /// Checks that every culture referenced by a country definition is
    /// defined in some culture file; one diagnostic per undefined
    /// reference, naming the culture and the file, in file-then-entity
    /// order. The check is total: it never stops at the first failure.
    pub fn cultures_are_defined(&self, mod_state: &ModState) -> (r: Vec<Diagnostic>)
        ensures
            diags_view(r@) == spec_undef_in_files(
                cd_files_view(mod_state.country_definition_files@),
                culture_files_view(mod_state.culture_files@),
            ),
    {
        let ghost files_v = cd_files_view(mod_state.country_definition_files@);
        let ghost cu = culture_files_view(mod_state.culture_files@);
        let files = &mod_state.country_definition_files;
        let mut out: Vec<Diagnostic> = Vec::new();
        let mut i: usize = 0;
        while i < files.len()
            invariant
                files_v == cd_files_view(mod_state.country_definition_files@),
                cu == culture_files_view(mod_state.culture_files@),
                files == &mod_state.country_definition_files,
                i <= files@.len(),
                files_v.len() == files@.len(),
                diags_view(out@) == spec_undef_in_files(files_v.take(i as int), cu),
            decreases files@.len() - i,
        {
            proof {
                assert(files_v.take(i + 1 as int).drop_last() =~= files_v.take(i as int));
                assert(files_v.take(i + 1 as int).last() == files_v[i as int]);
                assert(files_v[i as int] == files@[i as int]@);
            }
            let defs = &files[i].entries;
            let ghost defs_v = files_v[i as int].entries;
            let ghost fname = files_v[i as int].name;
            let mut j: usize = 0;
            while j < defs.len()
                invariant
                    files_v == cd_files_view(mod_state.country_definition_files@),
                    cu == culture_files_view(mod_state.culture_files@),
                    files == &mod_state.country_definition_files,
                    0 <= i < files@.len(),
                    files_v.len() == files@.len(),
                    files_v[i as int] == files@[i as int]@,
                    defs == &files@[i as int].entries,
                    defs_v == files_v[i as int].entries,
                    fname == files_v[i as int].name,
                    j <= defs@.len(),
                    defs_v.len() == defs@.len(),
                    forall|b: int| 0 <= b < defs@.len() ==> defs_v[b] == #[trigger] defs@[b]@,
                    diags_view(out@) == spec_undef_in_files(files_v.take(i as int), cu)
                        + spec_undef_in_defs(defs_v.take(j as int), fname, cu),
                decreases defs@.len() - j,
            {
                proof {
                    assert(defs_v.take(j + 1 as int).drop_last() =~= defs_v.take(j as int));
                    assert(defs_v.take(j + 1 as int).last() == defs_v[j as int]);
                }
                let cultures = &defs[j].cultures;
                let ghost cs = defs_v[j as int].cultures;
                let mut k: usize = 0;
                while k < cultures.len()
                    invariant
                        files_v == cd_files_view(mod_state.country_definition_files@),
                        cu == culture_files_view(mod_state.culture_files@),
                        files == &mod_state.country_definition_files,
                        0 <= i < files@.len(),
                        files_v.len() == files@.len(),
                        files_v[i as int] == files@[i as int]@,
                        defs == &files@[i as int].entries,
                        defs_v == files_v[i as int].entries,
                        fname == files_v[i as int].name,
                        0 <= j < defs@.len(),
                        defs_v.len() == defs@.len(),
                        defs_v[j as int] == defs@[j as int]@,
                        cultures == &defs@[j as int].cultures,
                        cs == defs_v[j as int].cultures,
                        k <= cultures@.len(),
                        cs.len() == cultures@.len(),
                        forall|b: int| 0 <= b < cultures@.len() ==> cs[b] == #[trigger] cultures@[b]@,
                        diags_view(out@) == spec_undef_in_files(files_v.take(i as int), cu)
                            + spec_undef_in_defs(defs_v.take(j as int), fname, cu)
                            + spec_undef_in_cultures(cs.take(k as int), fname, cu),
                    decreases cultures@.len() - k,
                {
                    proof {
                        assert(cs.take(k + 1 as int).drop_last() =~= cs.take(k as int));
                        assert(cs.take(k + 1 as int).last() == cs[k as int]);
                    }
                    let ghost pre_out = out@;
                    if !culture_is_defined(&mod_state.culture_files, &cultures[k]) {
                        let mut msg = String::from_str("Culture `");
                        msg.append(cultures[k].as_str());
                        msg.append("` is Undefined! @ ");
                        msg.append(files[i].name.as_str());
                        let ghost msg_v = msg@;
                        out.push(Diagnostic { level: LogLevel::Error, message: msg });
                        proof {
                            assert(files@[i as int]@.name == files@[i as int].name@);
                            assert(msg_v == spec_undefined_culture_msg(cs[k as int], fname));
                            assert(diags_view(out@) =~= diags_view(pre_out).push(
                                spec_undefined_culture_diag(cs[k as int], fname),
                            ));
                        }
                    }
                    proof {
                        assert(diags_view(out@) =~= spec_undef_in_files(files_v.take(i as int), cu)
                            + spec_undef_in_defs(defs_v.take(j as int), fname, cu)
                            + spec_undef_in_cultures(cs.take(k + 1 as int), fname, cu));
                    }
                    k = k + 1;
                }
                proof {
                    assert(cs.take(cs.len() as int) =~= cs);
                    assert(diags_view(out@) =~= spec_undef_in_files(files_v.take(i as int), cu)
                        + spec_undef_in_defs(defs_v.take(j + 1 as int), fname, cu));
                }
                j = j + 1;
            }
            proof {
                assert(defs_v.take(defs_v.len() as int) =~= defs_v);
                assert(diags_view(out@) =~= spec_undef_in_files(files_v.take(i + 1 as int), cu));
            }
            i = i + 1;
        }
        proof {
            assert(files_v.take(files_v.len() as int) =~= files_v);
        }
        out
    }

    /// Checks that no country tag is used twice across the whole
    /// collection, scanning files then entities in order; each repeat
    /// after the first occurrence yields exactly one diagnostic. The
    /// check is total: it never stops at the first failure.
    pub fn no_duplicate_tags(&self, mod_state: &ModState) -> (r: Vec<Diagnostic>)
        ensures
            diags_view(r@) == spec_dup_diags(
                spec_all_tags(cd_files_view(mod_state.country_definition_files@)),
            ),
    {
        let ghost files_v = cd_files_view(mod_state.country_definition_files@);
        let files = &mod_state.country_definition_files;
        // First flatten every (tag, file) pair in scan order.
        let mut flat: Vec<(String, String)> = Vec::new();
        let ghost all = spec_all_tags(files_v);
        let mut i: usize = 0;
        while i < files.len()
            invariant
                files_v == cd_files_view(mod_state.country_definition_files@),
                files == &mod_state.country_definition_files,
                i <= files@.len(),
                files_v.len() == files@.len(),
                flat@.map_values(|p: (String, String)| (p.0@, p.1@)) == spec_all_tags(
                    files_v.take(i as int),
                ),
            decreases files@.len() - i,
        {
            proof {
                assert(files_v.take(i + 1 as int).drop_last() =~= files_v.take(i as int));
                assert(files_v.take(i + 1 as int).last() == files_v[i as int]);
                assert(files_v[i as int] == files@[i as int]@);
            }
            let defs = &files[i].entries;
            let ghost defs_v = files_v[i as int].entries;
            let mut j: usize = 0;
            while j < defs.len()
                invariant
                    files_v == cd_files_view(mod_state.country_definition_files@),
                    files == &mod_state.country_definition_files,
                    0 <= i < files@.len(),
                    files_v.len() == files@.len(),
                    files_v[i as int] == files@[i as int]@,
                    defs == &files@[i as int].entries,
                    defs_v == files_v[i as int].entries,
                    j <= defs@.len(),
                    defs_v.len() == defs@.len(),
                    forall|b: int| 0 <= b < defs@.len() ==> defs_v[b] == #[trigger] defs@[b]@,
                    flat@.map_values(|p: (String, String)| (p.0@, p.1@)) == spec_all_tags(
                        files_v.take(i as int),
                    ) + spec_file_tags(files_v[i as int]).take(j as int),
                decreases defs@.len() - j,
            {
                let ghost pre_flat = flat@;
                flat.push((defs[j].tag.clone(), files[i].name.clone()));
                proof {
                    assert(defs@[j as int]@.tag == defs@[j as int].tag@);
                    assert(files@[i as int]@.name == files@[i as int].name@);
                    assert(spec_file_tags(files_v[i as int]).take(j + 1 as int) =~= spec_file_tags(
                        files_v[i as int],
                    ).take(j as int).push((defs_v[j as int].tag, files_v[i as int].name))) by {
                        let ft = spec_file_tags(files_v[i as int]);
                        assert(ft.len() == defs_v.len());
                        assert(ft[j as int] == (defs_v[j as int].tag, files_v[i as int].name));
                        let lhs = ft.take(j + 1 as int);
                        let rhs = ft.take(j as int).push(
                            (defs_v[j as int].tag, files_v[i as int].name),
                        );
                        assert(lhs.len() == rhs.len());
                        assert(forall|t: int| 0 <= t < j ==> lhs[t] == rhs[t]);
                        assert(lhs[j as int] == rhs[j as int]);
                    }
                    let lhs2 = flat@.map_values(|p: (String, String)| (p.0@, p.1@));
                    let pre2 = pre_flat.map_values(|p: (String, String)| (p.0@, p.1@));
                    assert(lhs2.len() == pre2.len() + 1);
                    assert(forall|t: int| 0 <= t < pre2.len() ==> lhs2[t] == pre2[t]);
                    assert(lhs2.last() == (defs_v[j as int].tag, files_v[i as int].name));
                    assert(lhs2 =~= pre2.push((defs_v[j as int].tag, files_v[i as int].name)));
                    assert(flat@.map_values(|p: (String, String)| (p.0@, p.1@)) =~= spec_all_tags(
                        files_v.take(i as int),
                    ) + spec_file_tags(files_v[i as int]).take(j + 1 as int));
                }
                j = j + 1;
            }
            proof {
                assert(spec_file_tags(files_v[i as int]).take(
                    spec_file_tags(files_v[i as int]).len() as int,
                ) =~= spec_file_tags(files_v[i as int]));
                assert(flat@.map_values(|p: (String, String)| (p.0@, p.1@)) =~= spec_all_tags(
                    files_v.take(i + 1 as int),
                ));
            }
            i = i + 1;
        }
        proof {
            assert(files_v.take(files_v.len() as int) =~= files_v);
        }
        let ghost flat_v = flat@.map_values(|p: (String, String)| (p.0@, p.1@));
        // Then scan for repeats of any earlier tag.
        let mut out: Vec<Diagnostic> = Vec::new();
        let mut n: usize = 0;
        while n < flat.len()
            invariant
                flat_v == flat@.map_values(|p: (String, String)| (p.0@, p.1@)),
                flat_v == all,
                n <= flat@.len(),
                flat_v.len() == flat@.len(),
                diags_view(out@) == spec_dup_diags(flat_v.take(n as int)),
            decreases flat@.len() - n,
        {
            proof {
                assert(flat_v.take(n + 1 as int).drop_last() =~= flat_v.take(n as int));
                assert(flat_v.take(n + 1 as int).last() == flat_v[n as int]);
            }
            let mut seen = false;
            let mut m: usize = 0;
            while m < n
                invariant
                    flat_v == flat@.map_values(|p: (String, String)| (p.0@, p.1@)),
                    0 <= n < flat@.len(),
                    flat_v.len() == flat@.len(),
                    m <= n,
                    seen == exists|j: int| 0 <= j < m && flat_v[j].0 == flat_v[n as int].0,
                decreases n - m,
            {
                if str_eq(flat[m].0.as_str(), flat[n].0.as_str()) {
                    proof {
                        assert(flat_v[m as int].0 == flat_v[n as int].0);
                    }
                    seen = true;
                }
                m = m + 1;
            }
            if seen {
                let mut msg = String::from_str("Duplicate Tag `");
                msg.append(flat[n].0.as_str());
                msg.append("` @ ");
                msg.append(flat[n].1.as_str());
                out.push(Diagnostic { level: LogLevel::Error, message: msg });
            }
            proof {
                let pre = flat_v.take(n + 1 as int);
                assert(pre.len() - 1 == n as int);
                assert(forall|j: int| 0 <= j < n ==> pre[j] == flat_v[j]);
                if seen {
                    assert(exists|j: int| 0 <= j < pre.len() - 1 && pre[j].0 == pre.last().0);
                } else {
                    assert(forall|j: int| 0 <= j < pre.len() - 1 ==> pre[j].0 != pre.last().0);
                }
                assert(diags_view(out@) =~= spec_dup_diags(flat_v.take(n + 1 as int)));
            }
            n = n + 1;
        }
        proof {
            assert(flat_v.take(flat_v.len() as int) =~= flat_v);
        }
        out
    }

    /// Runs both checks and settles overall validity: the collection is
    /// valid exactly when both diagnostic lists come back empty.
    pub fn validate(&self, mod_state: &ModState) -> (r: (Vec<Diagnostic>, Vec<Diagnostic>, bool))
        ensures
            diags_view(r.0@) == spec_undef_in_files(
                cd_files_view(mod_state.country_definition_files@),
                culture_files_view(mod_state.culture_files@),
            ),
            diags_view(r.1@) == spec_dup_diags(
                spec_all_tags(cd_files_view(mod_state.country_definition_files@)),
            ),
            r.2 == spec_mod_valid(
                cd_files_view(mod_state.country_definition_files@),
                culture_files_view(mod_state.culture_files@),
            ),
    {
        let culture_diags = self.cultures_are_defined(mod_state);
        let tag_diags = self.no_duplicate_tags(mod_state);
        let valid = culture_diags.len() == 0 && tag_diags.len() == 0;
        proof {
            assert(diags_view(culture_diags@).len() == culture_diags@.len());
            assert(diags_view(tag_diags@).len() == tag_diags@.len());
            if culture_diags@.len() == 0 {
                assert(diags_view(culture_diags@) =~= Seq::<DiagV>::empty());
            }
            if tag_diags@.len() == 0 {
                assert(diags_view(tag_diags@) =~= Seq::<DiagV>::empty());
            }
        }
        (culture_diags, tag_diags, valid)
    }
}

} // verus!
