//! The composition plan: a parsed template file lists direct includes and
//! named varied choices; resolving it against a library of loaded chunk
//! groups yields an immutable [`Template`].
//!
//! Resolution is eager: every referenced group, including every
//! alternative of every varied choice, is resolved up front, and the
//! load-time invariants (every referenced group found, every slot and
//! every choice non-empty) are enforced here, so that generation can
//! never fail later.

use vstd::prelude::*;

use crate::chunk::{lemma_map_values_push, slots_nonempty, Chunks, ChunksModel};

verus! {

/// The model of one template entry.
pub ghost enum ElementModel {
    Include { uri: Seq<char> },
    IncludeVaried { name: Seq<char>, choices: Seq<(Seq<char>, Seq<char>)> },
}

/// A direct inclusion: one group file, always contributing.
#[derive(Clone, Debug)]
pub struct IncludeElement {
    pub uri: String,
}

/// A varied inclusion: a named choice among alternative group files, of
/// which one is picked per generation.
#[derive(Clone, Debug)]
pub struct IncludeVariedElement {
    pub name: String,
    pub choices: Vec<(String, String)>,
}

/// One entry of a template file.
#[derive(Clone, Debug)]
pub enum Element {
    Include(IncludeElement),
    IncludeVaried(IncludeVariedElement),
}

impl View for Element {
    type V = ElementModel;

    open spec fn view(&self) -> ElementModel {
        match self {
            Element::Include(inc) => ElementModel::Include { uri: inc.uri@ },
            Element::IncludeVaried(v) => ElementModel::IncludeVaried {
                name: v.name@,
                choices: v.choices@.map_values(|c: (String, String)| (c.0@, c.1@)),
            },
        }
    }
}

/// A template file as parsed: its entries in order.
#[derive(Clone, Debug)]
pub struct YamlTemplate(pub Vec<Element>);

impl View for YamlTemplate {
    type V = Seq<ElementModel>;

    open spec fn view(&self) -> Seq<ElementModel> {
        self.0@.map_values(|e: Element| e@)
    }
}

/// The model of a resolved template: the groups of the direct includes in
/// order, and for each varied choice its name with the named alternative
/// groups.
pub ghost struct TemplateModel {
    pub includes: Seq<ChunksModel>,
    pub include_varied: Seq<(Seq<char>, Seq<(Seq<char>, ChunksModel)>)>,
}

/// A resolved, immutable composition plan.
#[derive(Debug)]
pub struct Template {
    pub includes: Vec<Chunks>,
    pub include_varied: Vec<(String, Vec<(String, Chunks)>)>,
}

/// The model of a group list.
pub open spec fn groups_model(s: Seq<Chunks>) -> Seq<ChunksModel> {
    s.map_values(|c: Chunks| c@)
}

/// The model of a varied-choice list: each choice name with its named
/// alternative groups.
pub open spec fn varied_model(s: Seq<(String, Vec<(String, Chunks)>)>) -> Seq<
    (Seq<char>, Seq<(Seq<char>, ChunksModel)>),
> {
    s.map_values(|p: (String, Vec<(String, Chunks)>)| (p.0@, library_model(p.1@)))
}

impl View for Template {
    type V = TemplateModel;

    open spec fn view(&self) -> TemplateModel {
        TemplateModel {
            includes: groups_model(self.includes@),
            include_varied: varied_model(self.include_varied@),
        }
    }
}

/// The load-time invariants of a resolved template: every slot of every
/// group offers a candidate and every varied choice has an alternative.
pub open spec fn template_wf(t: TemplateModel) -> bool {
    &&& forall|i: int| 0 <= i < t.includes.len() ==> slots_nonempty(#[trigger] t.includes[i])
    &&& forall|i: int|
        0 <= i < t.include_varied.len() ==> (#[trigger] t.include_varied[i]).1.len() > 0
    &&& forall|i: int, j: int|
        0 <= i < t.include_varied.len() && 0 <= j < t.include_varied[i].1.len()
            ==> slots_nonempty((#[trigger] t.include_varied[i].1[j]).1)
}

/// The model of a group library: each loaded group under its uri.
pub open spec fn library_model(lib: Seq<(String, Chunks)>) -> Seq<(Seq<char>, ChunksModel)> {
    lib.map_values(|p: (String, Chunks)| (p.0@, p.1@))
}

/// The index of the first library entry for `uri`, or -1 when none is
/// loaded under that uri.
pub open spec fn group_index(lib: Seq<(Seq<char>, ChunksModel)>, uri: Seq<char>) -> int
    decreases lib.len(),
{
    if lib.len() == 0 {
        -1
    } else if lib[0].0 == uri {
        0
    } else {
        let rest = group_index(lib.drop_first(), uri);
        if rest < 0 {
            -1
        } else {
            rest + 1
        }
    }
}

/// The group the library holds under `uri` (meaningful when present).
pub open spec fn group_at(lib: Seq<(Seq<char>, ChunksModel)>, uri: Seq<char>) -> ChunksModel {
    lib[group_index(lib, uri)].1
}

/// A uri resolves: the library holds it, and the group under it has no
/// empty slot.
pub open spec fn uri_ok(lib: Seq<(Seq<char>, ChunksModel)>, uri: Seq<char>) -> bool {
    group_index(lib, uri) >= 0 && slots_nonempty(group_at(lib, uri))
}

/// A template entry resolves against the library.
pub open spec fn element_ok(lib: Seq<(Seq<char>, ChunksModel)>, e: ElementModel) -> bool {
    match e {
        ElementModel::Include { uri } => uri_ok(lib, uri),
        ElementModel::IncludeVaried { name, choices } => choices.len() > 0 && forall|j: int|
            0 <= j < choices.len() ==> uri_ok(lib, (#[trigger] choices[j]).1),
    }
}

/// The whole template resolves: every entry does.
pub open spec fn load_ok(t: Seq<ElementModel>, lib: Seq<(Seq<char>, ChunksModel)>) -> bool {
    forall|i: int| 0 <= i < t.len() ==> element_ok(lib, #[trigger] t[i])
}

/// The resolved groups of the direct includes, in template order.
pub open spec fn resolved_includes(
    t: Seq<ElementModel>,
    lib: Seq<(Seq<char>, ChunksModel)>,
) -> Seq<ChunksModel>
    decreases t.len(),
{
    if t.len() == 0 {
        Seq::empty()
    } else {
        let rest = resolved_includes(t.drop_last(), lib);
        match t.last() {
            ElementModel::Include { uri } => rest + seq![group_at(lib, uri)],
            ElementModel::IncludeVaried { .. } => rest,
        }
    }
}

/// The resolved alternatives of one varied choice, in declaration order.
pub open spec fn resolved_choices(
    lib: Seq<(Seq<char>, ChunksModel)>,
    choices: Seq<(Seq<char>, Seq<char>)>,
) -> Seq<(Seq<char>, ChunksModel)> {
    choices.map_values(|c: (Seq<char>, Seq<char>)| (c.0, group_at(lib, c.1)))
}

/// The resolved varied choices, in template order.
pub open spec fn resolved_varied(
    t: Seq<ElementModel>,
    lib: Seq<(Seq<char>, ChunksModel)>,
) -> Seq<(Seq<char>, Seq<(Seq<char>, ChunksModel)>)>
    decreases t.len(),
{
    if t.len() == 0 {
        Seq::empty()
    } else {
        let rest = resolved_varied(t.drop_last(), lib);
        match t.last() {
            ElementModel::Include { .. } => rest,
            ElementModel::IncludeVaried { name, choices } => rest + seq![
                (name, resolved_choices(lib, choices)),
            ],
        }
    }
}

/// The model of a load failure.
pub ghost enum LoadErrorModel {
    MissingChunks { uri: Seq<char> },
    EmptySlot { uri: Seq<char> },
    EmptyChoices { name: Seq<char> },
}

/// A failure of template resolution: the referenced group file was not
/// among the loaded ones, a referenced group declares a slot with no
/// candidate, or a varied choice names no alternative at all.
#[derive(Debug)]
pub enum LoadError {
    MissingChunks { uri: String },
    EmptySlot { uri: String },
    EmptyChoices { name: String },
}

impl View for LoadError {
    type V = LoadErrorModel;

    open spec fn view(&self) -> LoadErrorModel {
        match self {
            LoadError::MissingChunks { uri } => LoadErrorModel::MissingChunks { uri: uri@ },
            LoadError::EmptySlot { uri } => LoadErrorModel::EmptySlot { uri: uri@ },
            LoadError::EmptyChoices { name } => LoadErrorModel::EmptyChoices { name: name@ },
        }
    }
}

/// The failure a non-resolving uri reports.
pub open spec fn uri_error(lib: Seq<(Seq<char>, ChunksModel)>, uri: Seq<char>) -> LoadErrorModel {
    if group_index(lib, uri) < 0 {
        LoadErrorModel::MissingChunks { uri }
    } else {
        LoadErrorModel::EmptySlot { uri }
    }
}

/// The failure of the first non-resolving alternative of a varied choice.
pub open spec fn first_choice_error(
    lib: Seq<(Seq<char>, ChunksModel)>,
    choices: Seq<(Seq<char>, Seq<char>)>,
) -> LoadErrorModel
    decreases choices.len(),
{
    if choices.len() == 0 {
        LoadErrorModel::EmptyChoices { name: Seq::empty() }
    } else if !uri_ok(lib, choices[0].1) {
        uri_error(lib, choices[0].1)
    } else {
        first_choice_error(lib, choices.drop_first())
    }
}

/// The failure a non-resolving entry reports.
pub open spec fn element_error(
    lib: Seq<(Seq<char>, ChunksModel)>,
    e: ElementModel,
) -> LoadErrorModel {
    match e {
        ElementModel::Include { uri } => uri_error(lib, uri),
        ElementModel::IncludeVaried { name, choices } => if choices.len() == 0 {
            LoadErrorModel::EmptyChoices { name }
        } else {
            first_choice_error(lib, choices)
        },
    }
}

/// The failure of the first non-resolving entry, in scan order.
pub open spec fn first_load_error(
    t: Seq<ElementModel>,
    lib: Seq<(Seq<char>, ChunksModel)>,
) -> LoadErrorModel
    decreases t.len(),
{
    if t.len() == 0 {
        LoadErrorModel::EmptyChoices { name: Seq::empty() }
    } else if !element_ok(lib, t[0]) {
        element_error(lib, t[0])
    } else {
        first_load_error(t.drop_first(), lib)
    }
}

/// `group_index` returns a sound index: in range, with the requested uri.
proof fn lemma_group_index_sound(lib: Seq<(Seq<char>, ChunksModel)>, uri: Seq<char>)
    ensures
        group_index(lib, uri) >= 0 ==> 0 <= group_index(lib, uri) < lib.len()
            && lib[group_index(lib, uri)].0 == uri,
        group_index(lib, uri) < 0 ==> forall|k: int| 0 <= k < lib.len() ==> lib[k].0 != uri,
    decreases lib.len(),
{
    if lib.len() > 0 && lib[0].0 != uri {
        lemma_group_index_sound(lib.drop_first(), uri);
        if group_index(lib, uri) < 0 {
            assert forall|k: int| 0 <= k < lib.len() implies lib[k].0 != uri by {
                if k > 0 {
                    assert(lib.drop_first()[k - 1] == lib[k]);
                }
            }
        }
    }
}

/// A linear first-match search agrees with `group_index`.
proof fn lemma_group_index_first_match(
    lib: Seq<(Seq<char>, ChunksModel)>,
    uri: Seq<char>,
    j: int,
)
    requires
        0 <= j <= lib.len(),
        forall|k: int| 0 <= k < j ==> lib[k].0 != uri,
        j < lib.len() ==> lib[j].0 == uri,
    ensures
        group_index(lib, uri) == if j == lib.len() { -1int } else { j },
    decreases j,
{
    if j > 0 {
        lemma_group_index_first_match(lib.drop_first(), uri, j - 1);
    }
}

/// When the first `i` entries resolve and entry `i` does not, the load
/// error is entry `i`'s.
proof fn lemma_first_load_error_at(
    t: Seq<ElementModel>,
    lib: Seq<(Seq<char>, ChunksModel)>,
    i: int,
)
    requires
        0 <= i < t.len(),
        forall|k: int| 0 <= k < i ==> element_ok(lib, #[trigger] t[k]),
        !element_ok(lib, t[i]),
    ensures
        first_load_error(t, lib) == element_error(lib, t[i]),
    decreases i,
{
    if i > 0 {
        assert forall|k: int| 0 <= k < i - 1 implies element_ok(lib, #[trigger] t.drop_first()[k]) by {
            assert(t.drop_first()[k] == t[k + 1]);
        }
        lemma_first_load_error_at(t.drop_first(), lib, i - 1);
    }
}

/// When the first `k` alternatives resolve and alternative `k` does not,
/// the choice error is alternative `k`'s.
proof fn lemma_first_choice_error_at(
    lib: Seq<(Seq<char>, ChunksModel)>,
    choices: Seq<(Seq<char>, Seq<char>)>,
    k: int,
)
    requires
        0 <= k < choices.len(),
        forall|q: int| 0 <= q < k ==> uri_ok(lib, (#[trigger] choices[q]).1),
        !uri_ok(lib, choices[k].1),
    ensures
        first_choice_error(lib, choices) == uri_error(lib, choices[k].1),
    decreases k,
{
    if k > 0 {
        assert forall|q: int| 0 <= q < k - 1 implies uri_ok(
            lib,
            (#[trigger] choices.drop_first()[q]).1,
        ) by {
            assert(choices.drop_first()[q] == choices[q + 1]);
        }
        lemma_first_choice_error_at(lib, choices.drop_first(), k - 1);
    }
}

/// The position of the loaded group for `uri`, when one was loaded.
fn find_group(loaded: &Vec<(String, Chunks)>, uri: &String) -> (r: Option<usize>)
    ensures
        match r {
            Some(j) => group_index(library_model(loaded@), uri@) == j as int,
            None => group_index(library_model(loaded@), uri@) == -1,
        },
{
    let ghost lib = library_model(loaded@);
    let mut j: usize = 0;
    loop
        invariant
            j <= loaded@.len(),
            lib == library_model(loaded@),
            forall|k: int| 0 <= k < j ==> lib[k].0 != uri@,
        ensures
            j == loaded@.len(),
            forall|k: int| 0 <= k < j ==> lib[k].0 != uri@,
        decreases loaded@.len() - j,
    {
        if j == loaded.len() {
            break;
        }
        if loaded[j].0.eq(uri) {
            proof {
                lemma_group_index_first_match(lib, uri@, j as int);
            }
            return Some(j);
        }
        j += 1;
    }
    proof {
        lemma_group_index_first_match(lib, uri@, lib.len() as int);
    }
    None
}

impl Template {
    /// Resolves a parsed template against a library of loaded groups:
    /// each direct inclusion becomes one group and each varied inclusion
    /// a named set of alternative groups, all of them resolved eagerly.
    /// Fails on the first entry whose group is not in the library, whose
    /// group declares an empty slot, or whose choice set is empty; on
    /// success the load-time invariants hold of the whole plan.
    pub fn from_yaml_template(template: &YamlTemplate, loaded: &Vec<(String, Chunks)>) -> (r:
        Result<Template, LoadError>)
        ensures
            r is Ok <==> load_ok(template@, library_model(loaded@)),
            match r {
                Ok(tpl) => tpl@.includes == resolved_includes(template@, library_model(loaded@))
                    && tpl@.include_varied == resolved_varied(template@, library_model(loaded@))
                    && template_wf(tpl@),
                Err(e) => e@ == first_load_error(template@, library_model(loaded@)),
            },
    {
        let ghost tm = template@;
        let ghost lib = library_model(loaded@);
        let mut includes: Vec<Chunks> = Vec::new();
        let mut include_varied: Vec<(String, Vec<(String, Chunks)>)> = Vec::new();
        let mut i: usize = 0;
        while i < template.0.len()
            invariant
                i <= template.0@.len(),
                tm == template@,
                lib == library_model(loaded@),
                tm.len() == template.0@.len(),
                forall|k: int| 0 <= k < i ==> element_ok(lib, #[trigger] tm[k]),
                groups_model(includes@) == resolved_includes(tm.take(i as int), lib),
                varied_model(include_varied@) == resolved_varied(tm.take(i as int), lib),
                forall|k: int|
                    0 <= k < groups_model(includes@).len() ==> slots_nonempty(
                        #[trigger] groups_model(includes@)[k],
                    ),
                forall|k: int|
                    0 <= k < varied_model(include_varied@).len() ==> (#[trigger] varied_model(
                        include_varied@,
                    )[k]).1.len() > 0,
                forall|k: int, q: int|
                    0 <= k < varied_model(include_varied@).len() && 0 <= q < varied_model(
                        include_varied@,
                    )[k].1.len() ==> slots_nonempty(
                        (#[trigger] varied_model(include_varied@)[k].1[q]).1,
                    ),
            decreases template.0@.len() - i,
        {
            let element = &template.0[i];
            proof {
                assert(tm[i as int] == template.0@[i as int]@);
            }
            match element {
                Element::Include(inc) => {
                    match find_group(loaded, &inc.uri) {
                        Some(j) => {
                            proof {
                                lemma_group_index_sound(lib, inc.uri@);
                                assert(lib[j as int] == (loaded@[j as int].0@, loaded@[j as int].1@));
                            }
                            let group = &loaded[j].1;
                            if check_slots(group) {
                                let ghost prev = includes@;
                                let gclone = group.clone();
                                includes.push(gclone);
                                proof {
                                    lemma_map_values_push(prev, |c: Chunks| c@, gclone);
                                    assert(tm.take(i + 1).drop_last() =~= tm.take(i as int));
                                    assert(tm.take(i + 1).last() == tm[i as int]);
                                    assert(group_at(lib, inc.uri@) == group@);
                                    assert(groups_model(includes@) =~= resolved_includes(
                                        tm.take(i + 1),
                                        lib,
                                    ));
                                    assert(resolved_varied(tm.take(i + 1), lib)
                                        == resolved_varied(tm.take(i as int), lib));
                                    assert(element_ok(lib, tm[i as int]));
                                }
                            } else {
                                proof {
                                    assert(!uri_ok(lib, inc.uri@));
                                    assert(!element_ok(lib, tm[i as int]));
                                    assert(!load_ok(tm, lib));
                                    lemma_first_load_error_at(tm, lib, i as int);
                                }
                                return Err(LoadError::EmptySlot { uri: inc.uri.clone() });
                            }
                        },
                        None => {
                            proof {
                                lemma_group_index_sound(lib, inc.uri@);
                                assert(!uri_ok(lib, inc.uri@));
                                assert(!element_ok(lib, tm[i as int]));
                                assert(!load_ok(tm, lib));
                                lemma_first_load_error_at(tm, lib, i as int);
                            }
                            return Err(LoadError::MissingChunks { uri: inc.uri.clone() });
                        },
                    }
                },
                Element::IncludeVaried(v) => {
                    let ghost cm = v.choices@.map_values(|c: (String, String)| (c.0@, c.1@));
                    proof {
                        assert(tm[i as int] == ElementModel::IncludeVaried {
                            name: v.name@,
                            choices: cm,
                        });
                    }
                    if v.choices.len() == 0 {
                        proof {
                            assert(!element_ok(lib, tm[i as int]));
                            assert(!load_ok(tm, lib));
                            lemma_first_load_error_at(tm, lib, i as int);
                        }
                        return Err(LoadError::EmptyChoices { name: v.name.clone() });
                    }
                    let mut alts: Vec<(String, Chunks)> = Vec::new();
                    let mut k: usize = 0;
                    while k < v.choices.len()
                        invariant
                            k <= v.choices@.len(),
                            cm == v.choices@.map_values(|c: (String, String)| (c.0@, c.1@)),
                            cm.len() == v.choices@.len(),
                            cm.len() > 0,
                            tm == template@,
                            lib == library_model(loaded@),
                            tm.len() == template.0@.len(),
                            i < tm.len(),
                            tm[i as int] == (ElementModel::IncludeVaried {
                                name: v.name@,
                                choices: cm,
                            }),
                            forall|kk: int| 0 <= kk < i ==> element_ok(lib, #[trigger] tm[kk]),
                            forall|q: int| 0 <= q < k ==> uri_ok(lib, (#[trigger] cm[q]).1),
                            library_model(alts@) == resolved_choices(lib, cm.take(k as int)),
                            forall|q: int|
                                0 <= q < library_model(alts@).len() ==> slots_nonempty(
                                    (#[trigger] library_model(alts@)[q]).1,
                                ),
                        decreases v.choices@.len() - k,
                    {
                        let c = &v.choices[k];
                        proof {
                            assert(cm[k as int] == (c.0@, c.1@));
                        }
                        match find_group(loaded, &c.1) {
                            Some(j) => {
                                proof {
                                    lemma_group_index_sound(lib, c.1@);
                                    assert(lib[j as int] == (
                                        loaded@[j as int].0@,
                                        loaded@[j as int].1@,
                                    ));
                                }
                                let group = &loaded[j].1;
                                if check_slots(group) {
                                    let ghost prev = alts@;
                                    let name_c = c.0.clone();
                                    let gclone = group.clone();
                                    alts.push((name_c, gclone));
                                    proof {
                                        lemma_map_values_push(
                                            prev,
                                            |p: (String, Chunks)| (p.0@, p.1@),
                                            (name_c, gclone),
                                        );
                                        assert(group_at(lib, c.1@) == group@);
                                        assert(library_model(alts@) =~= resolved_choices(
                                            lib,
                                            cm.take(k + 1),
                                        ));
                                    }
                                } else {
                                    proof {
                                        assert(!uri_ok(lib, c.1@));
                                        assert(!element_ok(lib, tm[i as int]));
                                        assert(!load_ok(tm, lib));
                                        lemma_first_load_error_at(tm, lib, i as int);
                                        lemma_first_choice_error_at(lib, cm, k as int);
                                    }
                                    return Err(LoadError::EmptySlot { uri: c.1.clone() });
                                }
                            },
                            None => {
                                proof {
                                    lemma_group_index_sound(lib, c.1@);
                                    assert(!uri_ok(lib, c.1@));
                                    assert(!element_ok(lib, tm[i as int]));
                                    assert(!load_ok(tm, lib));
                                    lemma_first_load_error_at(tm, lib, i as int);
                                    lemma_first_choice_error_at(lib, cm, k as int);
                                }
                                return Err(LoadError::MissingChunks { uri: c.1.clone() });
                            },
                        }
                        k += 1;
                    }
                    let ghost prev_varied = include_varied@;
                    let vname = v.name.clone();
                    include_varied.push((vname, alts));
                    proof {
                        assert(cm.take(cm.len() as int) =~= cm);
                        lemma_map_values_push(
                            prev_varied,
                            |p: (String, Vec<(String, Chunks)>)| (p.0@, library_model(p.1@)),
                            (vname, alts),
                        );
                        assert(tm.take(i + 1).drop_last() =~= tm.take(i as int));
                        assert(tm.take(i + 1).last() == tm[i as int]);
                        assert(varied_model(include_varied@) =~= resolved_varied(
                            tm.take(i + 1),
                            lib,
                        ));
                        assert(resolved_includes(tm.take(i + 1), lib) == resolved_includes(
                            tm.take(i as int),
                            lib,
                        ));
                        assert(element_ok(lib, tm[i as int]));
                    }
                },
            }
            i += 1;
        }
        proof {
            assert(tm.take(tm.len() as int) =~= tm);
        }
        Ok(Template { includes, include_varied })
    }
}

impl Template {
    /// Decides at run time whether the load-time invariants hold of this
    /// plan: every slot of every group (alternatives included) offers a
    /// candidate and every varied choice has an alternative. A plan built
    /// by [`Template::from_yaml_template`] always passes; a hand-built
    /// one is checked here before it feeds a generator.
    pub fn validate(&self) -> (b: bool)
        ensures
            b == template_wf(self@),
    {
        let ghost t = self@;
        let mut i: usize = 0;
        while i < self.includes.len()
            invariant
                i <= self.includes@.len(),
                t == self@,
                t.includes.len() == self.includes@.len(),
                forall|k: int| 0 <= k < i ==> slots_nonempty(#[trigger] t.includes[k]),
            decreases self.includes@.len() - i,
        {
            if !check_slots(&self.includes[i]) {
                proof {
                    assert(!slots_nonempty(t.includes[i as int]));
                }
                return false;
            }
            i += 1;
        }
        let mut v: usize = 0;
        while v < self.include_varied.len()
            invariant
                v <= self.include_varied@.len(),
                t == self@,
                t.includes.len() == self.includes@.len(),
                t.include_varied.len() == self.include_varied@.len(),
                forall|k: int| 0 <= k < t.includes.len() ==> slots_nonempty(
                    #[trigger] t.includes[k],
                ),
                forall|k: int|
                    0 <= k < v ==> (#[trigger] t.include_varied[k]).1.len() > 0,
                forall|k: int, q: int|
                    0 <= k < v && 0 <= q < t.include_varied[k].1.len() ==> slots_nonempty(
                        (#[trigger] t.include_varied[k].1[q]).1,
                    ),
            decreases self.include_varied@.len() - v,
        {
            let pair = &self.include_varied[v];
            proof {
                assert(t.include_varied[v as int] == (pair.0@, library_model(pair.1@)));
            }
            if pair.1.len() == 0 {
                return false;
            }
            let mut j: usize = 0;
            while j < pair.1.len()
                invariant
                    j <= pair.1@.len(),
                    t == self@,
                    v < t.include_varied.len(),
                    t.include_varied[v as int].1 == library_model(pair.1@),
                    t.include_varied[v as int].1.len() == pair.1@.len(),
                    forall|q: int|
                        0 <= q < j ==> slots_nonempty(
                            (#[trigger] t.include_varied[v as int].1[q]).1,
                        ),
                decreases pair.1@.len() - j,
            {
                if !check_slots(&pair.1[j].1) {
                    proof {
                        assert(t.include_varied[v as int].1[j as int].1 == pair.1@[j as int].1@);
                        assert(!slots_nonempty(t.include_varied[v as int].1[j as int].1));
                    }
                    return false;
                }
                j += 1;
            }
            v += 1;
        }
        true
    }
}

/// Checks the load-time slot invariant of one group: every slot offers at
/// least one candidate.
fn check_slots(group: &Chunks) -> (b: bool)
    ensures
        b == slots_nonempty(group@),
{
    let mut k: usize = 0;
    while k < group.variants.len()
        invariant
            k <= group.variants@.len(),
            forall|j: int| 0 <= j < k ==> (#[trigger] group@.variants[j]).1.len() > 0,
        decreases group.variants@.len() - k,
    {
        if group.variants[k].1.len() == 0 {
            proof {
                assert(group@.variants[k as int].1.len() == 0);
            }
            return false;
        }
        k += 1;
    }
    true
}

} // verus!
