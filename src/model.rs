use vstd::prelude::*;
use crate::doc::Doc;
use crate::tsv::{decimal, push_char, signed_decimal, unsigned_decimal};

verus! {

// ---------------------------------------------------------------- spec model

pub struct RequirementV {
    pub name: Seq<char>,
    pub version: Seq<char>,
}

pub struct ExperimentV {
    pub name: Seq<char>,
    pub args: Seq<Seq<char>>,
}

pub struct FetchSourceV {
    pub url: Seq<char>,
    pub reference: Seq<char>,
}

pub struct ProjectV {
    pub path: Seq<char>,
    pub requirements: Seq<RequirementV>,
    pub experiments: Seq<ExperimentV>,
    pub git: Option<FetchSourceV>,
    pub build: Seq<Seq<char>>,
    pub run: Seq<Seq<char>>,
    pub clean: Seq<Seq<char>>,
}

pub struct FieldPathV {
    pub section: Seq<char>,
    pub index: Option<nat>,
    pub field: Option<Seq<char>>,
}

pub enum ParsingErrorV {
    Syntax,
    LineTooLong,
    NoDocument,
    RootNotMapping,
    MissingField(FieldPathV),
    WrongType(FieldPathV),
}

pub open spec fn path_v(section: Seq<char>, index: Option<nat>, field: Option<Seq<char>>) -> FieldPathV {
    FieldPathV { section, index, field }
}

/// The value of the first entry from position `i` on whose key is the text `key`.
pub open spec fn lookup_from(entries: Seq<(Doc, Doc)>, key: Seq<char>, i: int) -> Option<Doc>
    decreases entries.len() - i,
{
    if i < 0 || i >= entries.len() {
        None
    } else if entries[i].0 is Text && entries[i].0->Text_0@ == key {
        Some(entries[i].1)
    } else {
        lookup_from(entries, key, i + 1)
    }
}

/// The value that a mapping gives to `key`; a null value counts as absent.
pub open spec fn field_of(entries: Seq<(Doc, Doc)>, key: Seq<char>) -> Option<Doc> {
    match lookup_from(entries, key, 0) {
        Some(Doc::Null) => None,
        found => found,
    }
}

/// A scalar read as text: strings and numbers are accepted, numbers in their
/// written (floats) or decimal (integers) form.
pub open spec fn text_of(d: Doc) -> Option<Seq<char>> {
    match d {
        Doc::Text(s) => Some(s@),
        Doc::Real(s) => Some(s@),
        Doc::Integer(n) => Some(decimal(n as int)),
        _ => None,
    }
}

pub open spec fn required_text_spec(
    entries: Seq<(Doc, Doc)>,
    section: Seq<char>,
    index: Option<nat>,
    key: Seq<char>,
) -> Result<Seq<char>, ParsingErrorV> {
    match field_of(entries, key) {
        None => Err(ParsingErrorV::MissingField(path_v(section, index, Some(key)))),
        Some(v) => match text_of(v) {
            Some(t) => Ok(t),
            None => Err(ParsingErrorV::WrongType(path_v(section, index, Some(key)))),
        },
    }
}

/// The elements of a sequence-valued field; an absent optional field is empty.
pub open spec fn items_spec(
    entries: Seq<(Doc, Doc)>,
    section: Seq<char>,
    index: Option<nat>,
    key: Seq<char>,
    required: bool,
) -> Result<Seq<Doc>, ParsingErrorV> {
    match field_of(entries, key) {
        None => if required {
            Err(ParsingErrorV::MissingField(path_v(section, index, Some(key))))
        } else {
            Ok(Seq::empty())
        },
        Some(Doc::Array(v)) => Ok(v@),
        Some(_) => Err(ParsingErrorV::WrongType(path_v(section, index, Some(key)))),
    }
}

/// Reads the first `n` items with `f`, in order; the first item that fails gives the error.
pub open spec fn parse_list<A>(
    items: Seq<Doc>,
    n: nat,
    f: spec_fn(Doc, nat) -> Result<A, ParsingErrorV>,
) -> Result<Seq<A>, ParsingErrorV>
    decreases n,
{
    if n == 0 {
        Ok(Seq::empty())
    } else {
        match parse_list(items, (n - 1) as nat, f) {
            Err(e) => Err(e),
            Ok(done) => match f(items[n - 1], (n - 1) as nat) {
                Err(e) => Err(e),
                Ok(a) => Ok(done.push(a)),
            },
        }
    }
}

/// A list of texts; an item that is no text is reported at its index
/// (or, inside an entry, at the entry's index and the list's key).
pub open spec fn text_item(section: Seq<char>, index: Option<nat>, key: Option<Seq<char>>) -> spec_fn(Doc, nat) -> Result<Seq<char>, ParsingErrorV> {
    |d: Doc, j: nat| match text_of(d) {
        Some(t) => Ok(t),
        None => Err(ParsingErrorV::WrongType(
            if index is Some { path_v(section, index, key) } else { path_v(section, Some(j), key) },
        )),
    }
}

pub open spec fn requirement_item() -> spec_fn(Doc, nat) -> Result<RequirementV, ParsingErrorV> {
    |d: Doc, i: nat| requirement_spec(d, i)
}

pub open spec fn experiment_item() -> spec_fn(Doc, nat) -> Result<ExperimentV, ParsingErrorV> {
    |d: Doc, i: nat| experiment_spec(d, i)
}

pub open spec fn requirement_spec(d: Doc, i: nat) -> Result<RequirementV, ParsingErrorV> {
    let section = "requirements"@;
    match d {
        Doc::Hash(es) => match required_text_spec(es@, section, Some(i), "name"@) {
            Err(e) => Err(e),
            Ok(name) => match required_text_spec(es@, section, Some(i), "version"@) {
                Err(e) => Err(e),
                Ok(version) => Ok(RequirementV { name, version }),
            },
        },
        _ => Err(ParsingErrorV::WrongType(path_v(section, Some(i), None))),
    }
}

pub open spec fn experiment_spec(d: Doc, i: nat) -> Result<ExperimentV, ParsingErrorV> {
    let section = "experiments"@;
    match d {
        Doc::Hash(es) => match required_text_spec(es@, section, Some(i), "name"@) {
            Err(e) => Err(e),
            Ok(name) => match items_spec(es@, section, Some(i), "args"@, false) {
                Err(e) => Err(e),
                Ok(items) => match parse_list(
                    items,
                    items.len(),
                    text_item(section, Some(i), Some("args"@)),
                ) {
                    Err(e) => Err(e),
                    Ok(args) => Ok(ExperimentV { name, args }),
                },
            },
        },
        _ => Err(ParsingErrorV::WrongType(path_v(section, Some(i), None))),
    }
}

pub open spec fn text_list_spec(root: Seq<(Doc, Doc)>, key: Seq<char>) -> Result<Seq<Seq<char>>, ParsingErrorV> {
    match items_spec(root, ""@, None, key, false) {
        Err(e) => Err(e),
        Ok(items) => parse_list(items, items.len(), text_item(key, None, None)),
    }
}

pub open spec fn git_spec(root: Seq<(Doc, Doc)>) -> Result<Option<FetchSourceV>, ParsingErrorV> {
    let section = "git"@;
    match field_of(root, section) {
        None => Ok(None),
        Some(Doc::Hash(es)) => match required_text_spec(es@, section, None, "url"@) {
            Err(e) => Err(e),
            Ok(url) => match required_text_spec(es@, section, None, "ref"@) {
                Err(e) => Err(e),
                Ok(reference) => Ok(Some(FetchSourceV { url, reference })),
            },
        },
        Some(_) => Err(ParsingErrorV::WrongType(path_v(section, None, None))),
    }
}

/// What a document root gives: a project without a path, or the first field
/// that is missing or of the wrong shape, in the order requirements,
/// experiments, git, build, run, clean.
pub open spec fn project_spec(d: Doc) -> Result<ProjectV, ParsingErrorV> {
    match d {
        Doc::Hash(es) => {
            let root = es@;
            match items_spec(root, ""@, None, "requirements"@, true) {
                Err(e) => Err(e),
                Ok(ritems) => match parse_list(ritems, ritems.len(), requirement_item()) {
                    Err(e) => Err(e),
                    Ok(requirements) => match items_spec(root, ""@, None, "experiments"@, true) {
                        Err(e) => Err(e),
                        Ok(eitems) => match parse_list(eitems, eitems.len(), experiment_item()) {
                            Err(e) => Err(e),
                            Ok(experiments) => match git_spec(root) {
                                Err(e) => Err(e),
                                Ok(git) => match text_list_spec(root, "build"@) {
                                    Err(e) => Err(e),
                                    Ok(build) => match text_list_spec(root, "run"@) {
                                        Err(e) => Err(e),
                                        Ok(run) => match text_list_spec(root, "clean"@) {
                                            Err(e) => Err(e),
                                            Ok(clean) => Ok(ProjectV {
                                                path: Seq::empty(),
                                                requirements,
                                                experiments,
                                                git,
                                                build,
                                                run,
                                                clean,
                                            }),
                                        },
                                    },
                                },
                            },
                        },
                    },
                },
            }
        },
        _ => Err(ParsingErrorV::RootNotMapping),
    }
}

// ---------------------------------------------------------------- exec types

#[derive(Clone, Debug)]
pub struct Requirement {
    pub name: String,
    pub version: String,
}

#[derive(Clone, Debug)]
pub struct Experiment {
    pub name: String,
    /// Parameters handed to the run commands for this experiment.
    pub args: Vec<String>,
}

/// Where the version-controlled source is fetched from.
#[derive(Clone, Debug)]
pub struct FetchSource {
    pub url: String,
    pub reference: String,
}

#[derive(Clone, Debug)]
pub struct Project {
    pub path: String,
    pub requirements: Vec<Requirement>,
    pub experiments: Vec<Experiment>,
    pub git: Option<FetchSource>,
    pub build: Vec<String>,
    pub run: Vec<String>,
    pub clean: Vec<String>,
}

/// Where in the document a field is: a top-level section (empty for a key of
/// the root itself), the entry index inside it where there is one, and the key.
#[derive(Clone, Debug)]
pub struct FieldPath {
    pub section: String,
    pub index: Option<usize>,
    pub field: Option<String>,
}

#[derive(Clone, Debug)]
pub enum ParsingError {
    /// The text is not valid YAML.
    Syntax,
    /// A line of the text is longer than the loader takes (see `crate::doc::MAX_LINE_LEN`).
    LineTooLong,
    /// The text holds no document at all.
    NoDocument,
    /// The document's root is not a mapping.
    RootNotMapping,
    MissingField(FieldPath),
    WrongType(FieldPath),
}

pub open spec fn texts_view(v: Vec<String>) -> Seq<Seq<char>> {
    v@.map_values(|s: String| s@)
}

impl View for Requirement {
    type V = RequirementV;

    open spec fn view(&self) -> RequirementV {
        RequirementV { name: self.name@, version: self.version@ }
    }
}

impl View for Experiment {
    type V = ExperimentV;

    open spec fn view(&self) -> ExperimentV {
        ExperimentV { name: self.name@, args: texts_view(self.args) }
    }
}

impl View for FetchSource {
    type V = FetchSourceV;

    open spec fn view(&self) -> FetchSourceV {
        FetchSourceV { url: self.url@, reference: self.reference@ }
    }
}

impl View for Project {
    type V = ProjectV;

    open spec fn view(&self) -> ProjectV {
        ProjectV {
            path: self.path@,
            requirements: self.requirements@.map_values(|r: Requirement| r@),
            experiments: self.experiments@.map_values(|e: Experiment| e@),
            git: match self.git {
                Some(g) => Some(g@),
                None => None,
            },
            build: texts_view(self.build),
            run: texts_view(self.run),
            clean: texts_view(self.clean),
        }
    }
}

impl View for FieldPath {
    type V = FieldPathV;

    open spec fn view(&self) -> FieldPathV {
        FieldPathV {
            section: self.section@,
            index: match self.index {
                Some(i) => Some(i as nat),
                None => None,
            },
            field: match self.field {
                Some(f) => Some(f@),
                None => None,
            },
        }
    }
}

impl View for ParsingError {
    type V = ParsingErrorV;

    open spec fn view(&self) -> ParsingErrorV {
        match self {
            ParsingError::Syntax => ParsingErrorV::Syntax,
            ParsingError::LineTooLong => ParsingErrorV::LineTooLong,
            ParsingError::NoDocument => ParsingErrorV::NoDocument,
            ParsingError::RootNotMapping => ParsingErrorV::RootNotMapping,
            ParsingError::MissingField(p) => ParsingErrorV::MissingField(p@),
            ParsingError::WrongType(p) => ParsingErrorV::WrongType(p@),
        }
    }
}

pub open spec fn result_matches<A: View>(r: Result<A, ParsingError>, s: Result<A::V, ParsingErrorV>) -> bool {
    match r {
        Ok(a) => s == Ok::<A::V, ParsingErrorV>(a@),
        Err(e) => s == Err::<A::V, ParsingErrorV>(e@),
    }
}

pub open spec fn opt_nat(i: Option<usize>) -> Option<nat> {
    match i {
        Some(i) => Some(i as nat),
        None => None,
    }
}

pub open spec fn opt_text(f: Option<&str>) -> Option<Seq<char>> {
    match f {
        Some(f) => Some(f@),
        None => None,
    }
}

/// Once the first `m` items give an error, reading more items gives the same error.
pub proof fn lemma_parse_list_err<A>(
    items: Seq<Doc>,
    m: nat,
    n: nat,
    f: spec_fn(Doc, nat) -> Result<A, ParsingErrorV>,
)
    requires
        m <= n,
        parse_list(items, m, f) is Err,
    ensures
        parse_list(items, n, f) == parse_list(items, m, f),
    decreases n,
{
    if n > m {
        lemma_parse_list_err(items, m, (n - 1) as nat, f);
    }
}

/// A list read in full has one result per item, each read from the item at
/// the same position.
pub proof fn lemma_parse_list_ok<A>(
    items: Seq<Doc>,
    n: nat,
    f: spec_fn(Doc, nat) -> Result<A, ParsingErrorV>,
)
    requires
        parse_list(items, n, f) is Ok,
    ensures
        parse_list(items, n, f)->Ok_0.len() == n,
        forall|i: int| 0 <= i < n ==> #[trigger] f(items[i], i as nat) == Ok::<A, ParsingErrorV>(parse_list(items, n, f)->Ok_0[i]),
    decreases n,
{
    if n > 0 {
        lemma_parse_list_ok(items, (n - 1) as nat, f);
    }
}

/// A list with an item that cannot be read cannot be read in full.
pub proof fn lemma_parse_list_bad_item<A>(
    items: Seq<Doc>,
    n: nat,
    f: spec_fn(Doc, nat) -> Result<A, ParsingErrorV>,
    i: int,
)
    requires
        0 <= i < n,
        f(items[i], i as nat) is Err,
    ensures
        parse_list(items, n, f) is Err,
    decreases n,
{
    if i < n - 1 {
        lemma_parse_list_bad_item(items, (n - 1) as nat, f, i);
    }
}

/// A project read from a document keeps the document's order: its `i`-th
/// requirement and `i`-th experiment are read from the `i`-th entries of the
/// document's `requirements` and `experiments` lists, and there are as many.
pub proof fn lemma_document_order(d: Doc)
    requires
        project_spec(d) is Ok,
    ensures
        d is Hash,
        ({
            let root = d->Hash_0@;
            let p = project_spec(d)->Ok_0;
            let ritems = items_spec(root, ""@, None, "requirements"@, true)->Ok_0;
            let eitems = items_spec(root, ""@, None, "experiments"@, true)->Ok_0;
            &&& items_spec(root, ""@, None, "requirements"@, true) is Ok
            &&& items_spec(root, ""@, None, "experiments"@, true) is Ok
            &&& p.requirements.len() == ritems.len()
            &&& p.experiments.len() == eitems.len()
            &&& forall|i: int| 0 <= i < ritems.len()
                ==> #[trigger] requirement_spec(ritems[i], i as nat) == Ok::<RequirementV, ParsingErrorV>(p.requirements[i])
            &&& forall|i: int| 0 <= i < eitems.len()
                ==> #[trigger] experiment_spec(eitems[i], i as nat) == Ok::<ExperimentV, ParsingErrorV>(p.experiments[i])
        }),
{
    let root = d->Hash_0@;
    let ritems = items_spec(root, ""@, None, "requirements"@, true)->Ok_0;
    let eitems = items_spec(root, ""@, None, "experiments"@, true)->Ok_0;
    lemma_parse_list_ok(ritems, ritems.len(), requirement_item());
    lemma_parse_list_ok(eitems, eitems.len(), experiment_item());
    assert forall|i: int| 0 <= i < ritems.len() implies #[trigger] requirement_spec(ritems[i], i as nat)
        == Ok::<RequirementV, ParsingErrorV>(project_spec(d)->Ok_0.requirements[i]) by {
        assert(requirement_item()(ritems[i], i as nat) == requirement_spec(ritems[i], i as nat));
    }
    assert forall|i: int| 0 <= i < eitems.len() implies #[trigger] experiment_spec(eitems[i], i as nat)
        == Ok::<ExperimentV, ParsingErrorV>(project_spec(d)->Ok_0.experiments[i]) by {
        assert(experiment_item()(eitems[i], i as nat) == experiment_spec(eitems[i], i as nat));
    }
}

/// A document with a requirement entry that cannot be read (not a mapping, a
/// missing `name` or `version`, a `version` that is no scalar text) gives no project.
pub proof fn lemma_bad_requirement_rejected(d: Doc, i: int)
    requires
        d is Hash,
        items_spec(d->Hash_0@, ""@, None, "requirements"@, true) is Ok,
        0 <= i < items_spec(d->Hash_0@, ""@, None, "requirements"@, true)->Ok_0.len(),
        requirement_spec(items_spec(d->Hash_0@, ""@, None, "requirements"@, true)->Ok_0[i], i as nat) is Err,
    ensures
        project_spec(d) is Err,
{
    let ritems = items_spec(d->Hash_0@, ""@, None, "requirements"@, true)->Ok_0;
    assert(requirement_item()(ritems[i], i as nat) == requirement_spec(ritems[i], i as nat));
    lemma_parse_list_bad_item(ritems, ritems.len(), requirement_item(), i);
}

/// A document with an experiment entry that cannot be read (not a mapping, a
/// missing `name`, an `args` that is no list of texts) gives no project.
pub proof fn lemma_bad_experiment_rejected(d: Doc, i: int)
    requires
        d is Hash,
        items_spec(d->Hash_0@, ""@, None, "experiments"@, true) is Ok,
        0 <= i < items_spec(d->Hash_0@, ""@, None, "experiments"@, true)->Ok_0.len(),
        experiment_spec(items_spec(d->Hash_0@, ""@, None, "experiments"@, true)->Ok_0[i], i as nat) is Err,
    ensures
        project_spec(d) is Err,
{
    let root = d->Hash_0@;
    let eitems = items_spec(root, ""@, None, "experiments"@, true)->Ok_0;
    assert(experiment_item()(eitems[i], i as nat) == experiment_spec(eitems[i], i as nat));
    lemma_parse_list_bad_item(eitems, eitems.len(), experiment_item(), i);
}

/// An entry without a `name`, or whose `name` is no scalar text, cannot be read,
/// as a requirement or as an experiment.
pub proof fn lemma_entry_needs_name(es: Seq<(Doc, Doc)>, v: Vec<(Doc, Doc)>, i: nat)
    requires
        v@ == es,
        field_of(es, "name"@) is None || text_of(field_of(es, "name"@)->Some_0) is None,
    ensures
        requirement_spec(Doc::Hash(v), i) is Err,
        experiment_spec(Doc::Hash(v), i) is Err,
{
}

/// A requirement whose `version` is present but no scalar text cannot be read.
pub proof fn lemma_version_needs_text(es: Seq<(Doc, Doc)>, v: Vec<(Doc, Doc)>, i: nat)
    requires
        v@ == es,
        field_of(es, "version"@) is Some,
        text_of(field_of(es, "version"@)->Some_0) is None,
    ensures
        requirement_spec(Doc::Hash(v), i) is Err,
{
}

// ---------------------------------------------------------------- extraction

fn make_path(section: &str, index: Option<usize>, field: Option<&str>) -> (r: FieldPath)
    ensures
        r@ == path_v(section@, opt_nat(index), opt_text(field)),
{
    FieldPath {
        section: String::from_str(section),
        index,
        field: match field {
            Some(f) => Some(String::from_str(f)),
            None => None,
        },
    }
}

/// The value that a mapping gives to `key`, where it gives one that is not null.
pub fn find_field<'a>(entries: &'a Vec<(Doc, Doc)>, key: &str) -> (r: Option<&'a Doc>)
    ensures
        field_of(entries@, key@) == match r {
            Some(d) => Some(*d),
            None => None::<Doc>,
        },
{
    let k = String::from_str(key);
    let mut i: usize = 0;
    while i < entries.len()
        invariant
            i <= entries@.len(),
            k@ == key@,
            lookup_from(entries@, key@, 0) == lookup_from(entries@, key@, i as int),
        decreases entries@.len() - i,
    {
        let hit = match &entries[i].0 {
            Doc::Text(s) => s.eq(&k),
            _ => false,
        };
        if hit {
            let v = &entries[i].1;
            return match v {
                Doc::Null => None,
                _ => Some(v),
            };
        }
        i = i + 1;
    }
    None
}

/// A scalar read as text (see `text_of`).
pub fn doc_text(d: &Doc) -> (r: Option<String>)
    ensures
        text_of(*d) == match r {
            Some(t) => Some(t@),
            None => None::<Seq<char>>,
        },
{
    match d {
        Doc::Text(s) => Some(s.clone()),
        Doc::Real(s) => Some(s.clone()),
        Doc::Integer(n) => Some(signed_decimal(*n as i128)),
        _ => None,
    }
}

fn required_text(entries: &Vec<(Doc, Doc)>, section: &str, index: Option<usize>, key: &str) -> (r: Result<String, ParsingError>)
    ensures
        match r {
            Ok(t) => required_text_spec(entries@, section@, opt_nat(index), key@) == Ok::<Seq<char>, ParsingErrorV>(t@),
            Err(e) => required_text_spec(entries@, section@, opt_nat(index), key@) == Err::<Seq<char>, ParsingErrorV>(e@),
        },
{
    match find_field(entries, key) {
        None => Err(ParsingError::MissingField(make_path(section, index, Some(key)))),
        Some(v) => match doc_text(v) {
            Some(t) => Ok(t),
            None => Err(ParsingError::WrongType(make_path(section, index, Some(key)))),
        },
    }
}

/// The elements of a sequence-valued field; `Ok(None)` for an absent optional one.
fn field_items<'a>(
    entries: &'a Vec<(Doc, Doc)>,
    section: &str,
    index: Option<usize>,
    key: &str,
    required: bool,
) -> (r: Result<Option<&'a Vec<Doc>>, ParsingError>)
    ensures
        match r {
            Ok(Some(v)) => items_spec(entries@, section@, opt_nat(index), key@, required) == Ok::<Seq<Doc>, ParsingErrorV>(v@),
            Ok(None) => items_spec(entries@, section@, opt_nat(index), key@, required) == Ok::<Seq<Doc>, ParsingErrorV>(Seq::empty()),
            Err(e) => items_spec(entries@, section@, opt_nat(index), key@, required) == Err::<Seq<Doc>, ParsingErrorV>(e@),
        },
        required ==> !(r matches Ok(None)),
{
    match find_field(entries, key) {
        None => if required {
            Err(ParsingError::MissingField(make_path(section, index, Some(key))))
        } else {
            Ok(None)
        },
        Some(Doc::Array(v)) => Ok(Some(v)),
        Some(_) => Err(ParsingError::WrongType(make_path(section, index, Some(key)))),
    }
}

/// Reads every item of a list as text, in order.
fn text_items(items: &Vec<Doc>, section: &str, index: Option<usize>, key: Option<&str>) -> (r: Result<Vec<String>, ParsingError>)
    ensures
        match r {
            Ok(v) => parse_list(items@, items@.len(), text_item(section@, opt_nat(index), opt_text(key))) == Ok::<Seq<Seq<char>>, ParsingErrorV>(texts_view(v)),
            Err(e) => parse_list(items@, items@.len(), text_item(section@, opt_nat(index), opt_text(key))) == Err::<Seq<Seq<char>>, ParsingErrorV>(e@),
        },
{
    let ghost f = text_item(section@, opt_nat(index), opt_text(key));
    let mut out: Vec<String> = Vec::new();
    assert(texts_view(out) =~= Seq::<Seq<char>>::empty());
    let mut i: usize = 0;
    while i < items.len()
        invariant
            i <= items@.len(),
            f == text_item(section@, opt_nat(index), opt_text(key)),
            parse_list(items@, i as nat, f) == Ok::<Seq<Seq<char>>, ParsingErrorV>(texts_view(out)),
        decreases items@.len() - i,
    {
        match doc_text(&items[i]) {
            Some(t) => {
                let ghost before = out@;
                out.push(t);
                assert(texts_view(out) =~= before.map_values(|s: String| s@).push(t@));
            },
            None => {
                let e = match index {
                    Some(_) => ParsingError::WrongType(make_path(section, index, key)),
                    None => ParsingError::WrongType(make_path(section, Some(i), key)),
                };
                proof {
                    lemma_parse_list_err(items@, (i + 1) as nat, items@.len(), f);
                }
                return Err(e);
            },
        }
        i = i + 1;
    }
    Ok(out)
}

/// The text of a field path: `section[index].field`, leaving out what is absent.
pub open spec fn path_text(p: FieldPathV) -> Seq<char> {
    let idx = match p.index {
        Some(i) => seq!['['] + decimal(i as int) + seq![']'],
        None => Seq::empty(),
    };
    let fld = match p.field {
        Some(f) => if p.section.len() == 0 { f } else { seq!['.'] + f },
        None => Seq::empty(),
    };
    p.section + idx + fld
}

/// A one-line description of a parse failure.
pub open spec fn parsing_text(e: ParsingErrorV) -> Seq<char> {
    match e {
        ParsingErrorV::Syntax => "the text is not valid YAML"@,
        ParsingErrorV::LineTooLong => "a line is too long"@,
        ParsingErrorV::NoDocument => "no document"@,
        ParsingErrorV::RootNotMapping => "the document is not a mapping"@,
        ParsingErrorV::MissingField(p) => "missing field "@ + path_text(p),
        ParsingErrorV::WrongType(p) => "wrong type for "@ + path_text(p),
    }
}

impl FieldPath {
    /// The path as text (see `path_text`).
    pub fn text(&self) -> (r: String)
        ensures
            r@ == path_text(self@),
    {
        let mut r = self.section.clone();
        match self.index {
            Some(i) => {
                push_char(&mut r, '[');
                let d = unsigned_decimal(i as u128);
                r.append(d.as_str());
                push_char(&mut r, ']');
            },
            None => {},
        }
        match &self.field {
            Some(f) => {
                if self.section.as_str().unicode_len() != 0 {
                    push_char(&mut r, '.');
                }
                r.append(f.as_str());
            },
            None => {},
        }
        assert(r@ =~= path_text(self@));
        r
    }
}

impl ParsingError {
    /// A one-line description of the failure (see `parsing_text`).
    pub fn describe(&self) -> (r: String)
        ensures
            r@ == parsing_text(self@),
    {
        match self {
            ParsingError::Syntax => String::from_str("the text is not valid YAML"),
            ParsingError::LineTooLong => String::from_str("a line is too long"),
            ParsingError::NoDocument => String::from_str("no document"),
            ParsingError::RootNotMapping => String::from_str("the document is not a mapping"),
            ParsingError::MissingField(p) => {
                let mut r = String::from_str("missing field ");
                let t = p.text();
                r.append(t.as_str());
                r
            },
            ParsingError::WrongType(p) => {
                let mut r = String::from_str("wrong type for ");
                let t = p.text();
                r.append(t.as_str());
                r
            },
        }
    }
}

/// How a requirement is listed: indented, with its version.
pub open spec fn requirement_line(r: RequirementV) -> Seq<char> {
    "  "@ + r.name + ", version: "@ + r.version
}

impl Project {
    /// The listing of the requirements, one line each, in document order.
    pub fn requirement_lines(&self) -> (r: Vec<String>)
        ensures
            texts_view(r) == self@.requirements.map_values(|q: RequirementV| requirement_line(q)),
    {
        let ghost want = self@.requirements.map_values(|q: RequirementV| requirement_line(q));
        let mut out: Vec<String> = Vec::new();
        let mut i: usize = 0;
        while i < self.requirements.len()
            invariant
                i <= self.requirements@.len(),
                want == self@.requirements.map_values(|q: RequirementV| requirement_line(q)),
                texts_view(out) == want.take(i as int),
            decreases self.requirements@.len() - i,
        {
            let q = &self.requirements[i];
            let mut line = String::from_str("  ");
            line.append(q.name.as_str());
            line.append(", version: ");
            line.append(q.version.as_str());
            let ghost before = texts_view(out);
            out.push(line);
            assert(texts_view(out) =~= before.push(line@));
            assert(want.take(i + 1) =~= want.take(i as int).push(want[i as int]));
            i = i + 1;
        }
        assert(want.take(self.requirements@.len() as int) =~= want);
        out
    }
}

fn parse_requirement(d: &Doc, i: usize) -> (r: Result<Requirement, ParsingError>)
    ensures
        result_matches(r, requirement_spec(*d, i as nat)),
{
    match d {
        Doc::Hash(es) => {
            let name = match required_text(es, "requirements", Some(i), "name") {
                Ok(t) => t,
                Err(e) => return Err(e),
            };
            let version = match required_text(es, "requirements", Some(i), "version") {
                Ok(t) => t,
                Err(e) => return Err(e),
            };
            Ok(Requirement { name, version })
        },
        _ => Err(ParsingError::WrongType(make_path("requirements", Some(i), None))),
    }
}

fn parse_experiment(d: &Doc, i: usize) -> (r: Result<Experiment, ParsingError>)
    ensures
        result_matches(r, experiment_spec(*d, i as nat)),
{
    match d {
        Doc::Hash(es) => {
            let name = match required_text(es, "experiments", Some(i), "name") {
                Ok(t) => t,
                Err(e) => return Err(e),
            };
            let args = match field_items(es, "experiments", Some(i), "args", false) {
                Err(e) => return Err(e),
                Ok(None) => {
                    let v: Vec<String> = Vec::new();
                    assert(texts_view(v) =~= Seq::<Seq<char>>::empty());
                    v
                },
                Ok(Some(items)) => match text_items(items, "experiments", Some(i), Some("args")) {
                    Ok(v) => v,
                    Err(e) => return Err(e),
                },
            };
            Ok(Experiment { name, args })
        },
        _ => Err(ParsingError::WrongType(make_path("experiments", Some(i), None))),
    }
}

fn parse_requirements(items: &Vec<Doc>) -> (r: Result<Vec<Requirement>, ParsingError>)
    ensures
        match r {
            Ok(v) => parse_list(items@, items@.len(), requirement_item()) == Ok::<Seq<RequirementV>, ParsingErrorV>(v@.map_values(|x: Requirement| x@)),
            Err(e) => parse_list(items@, items@.len(), requirement_item()) == Err::<Seq<RequirementV>, ParsingErrorV>(e@),
        },
{
    let mut out: Vec<Requirement> = Vec::new();
    assert(out@.map_values(|x: Requirement| x@) =~= Seq::<RequirementV>::empty());
    let mut i: usize = 0;
    while i < items.len()
        invariant
            i <= items@.len(),
            parse_list(items@, i as nat, requirement_item()) == Ok::<Seq<RequirementV>, ParsingErrorV>(out@.map_values(|x: Requirement| x@)),
        decreases items@.len() - i,
    {
        match parse_requirement(&items[i], i) {
            Ok(x) => {
                let ghost before = out@;
                out.push(x);
                assert(out@.map_values(|x: Requirement| x@) =~= before.map_values(|x: Requirement| x@).push(x@));
            },
            Err(e) => {
                proof {
                    lemma_parse_list_err(items@, (i + 1) as nat, items@.len(), requirement_item());
                }
                return Err(e);
            },
        }
        i = i + 1;
    }
    Ok(out)
}

fn parse_experiments(items: &Vec<Doc>) -> (r: Result<Vec<Experiment>, ParsingError>)
    ensures
        match r {
            Ok(v) => parse_list(items@, items@.len(), experiment_item()) == Ok::<Seq<ExperimentV>, ParsingErrorV>(v@.map_values(|x: Experiment| x@)),
            Err(e) => parse_list(items@, items@.len(), experiment_item()) == Err::<Seq<ExperimentV>, ParsingErrorV>(e@),
        },
{
    let mut out: Vec<Experiment> = Vec::new();
    assert(out@.map_values(|x: Experiment| x@) =~= Seq::<ExperimentV>::empty());
    let mut i: usize = 0;
    while i < items.len()
        invariant
            i <= items@.len(),
            parse_list(items@, i as nat, experiment_item()) == Ok::<Seq<ExperimentV>, ParsingErrorV>(out@.map_values(|x: Experiment| x@)),
        decreases items@.len() - i,
    {
        match parse_experiment(&items[i], i) {
            Ok(x) => {
                let ghost before = out@;
                out.push(x);
                assert(out@.map_values(|x: Experiment| x@) =~= before.map_values(|x: Experiment| x@).push(x@));
            },
            Err(e) => {
                proof {
                    lemma_parse_list_err(items@, (i + 1) as nat, items@.len(), experiment_item());
                }
                return Err(e);
            },
        }
        i = i + 1;
    }
    Ok(out)
}

fn parse_git(root: &Vec<(Doc, Doc)>) -> (r: Result<Option<FetchSource>, ParsingError>)
    ensures
        match r {
            Ok(Some(g)) => git_spec(root@) == Ok::<Option<FetchSourceV>, ParsingErrorV>(Some(g@)),
            Ok(None) => git_spec(root@) == Ok::<Option<FetchSourceV>, ParsingErrorV>(None),
            Err(e) => git_spec(root@) == Err::<Option<FetchSourceV>, ParsingErrorV>(e@),
        },
{
    match find_field(root, "git") {
        None => Ok(None),
        Some(Doc::Hash(es)) => {
            let url = match required_text(es, "git", None, "url") {
                Ok(t) => t,
                Err(e) => return Err(e),
            };
            let reference = match required_text(es, "git", None, "ref") {
                Ok(t) => t,
                Err(e) => return Err(e),
            };
            Ok(Some(FetchSource { url, reference }))
        },
        Some(_) => Err(ParsingError::WrongType(make_path("git", None, None))),
    }
}

fn parse_text_list(root: &Vec<(Doc, Doc)>, key: &str) -> (r: Result<Vec<String>, ParsingError>)
    ensures
        match r {
            Ok(v) => text_list_spec(root@, key@) == Ok::<Seq<Seq<char>>, ParsingErrorV>(texts_view(v)),
            Err(e) => text_list_spec(root@, key@) == Err::<Seq<Seq<char>>, ParsingErrorV>(e@),
        },
{
    match field_items(root, "", None, key, false) {
        Err(e) => Err(e),
        Ok(None) => {
            let v: Vec<String> = Vec::new();
            assert(texts_view(v) =~= Seq::<Seq<char>>::empty());
            Ok(v)
        },
        Ok(Some(items)) => text_items(items, key, None, None),
    }
}

impl Project {
    /// Reads a project, still without a path, from a document root. Either the
    /// whole project comes back or the first offending field does: the result is
    /// exactly `project_spec`.
    pub fn from_yaml(d: &Doc) -> (r: Result<Project, ParsingError>)
        ensures
            result_matches(r, project_spec(*d)),
    {
        match d {
            Doc::Hash(root) => {
                let ritems = match field_items(root, "", None, "requirements", true) {
                    Ok(Some(v)) => v,
                    Ok(None) => return Err(ParsingError::MissingField(make_path("", None, Some("requirements")))),
                    Err(e) => return Err(e),
                };
                let requirements = match parse_requirements(ritems) {
                    Ok(v) => v,
                    Err(e) => return Err(e),
                };
                let eitems = match field_items(root, "", None, "experiments", true) {
                    Ok(Some(v)) => v,
                    Ok(None) => return Err(ParsingError::MissingField(make_path("", None, Some("experiments")))),
                    Err(e) => return Err(e),
                };
                let experiments = match parse_experiments(eitems) {
                    Ok(v) => v,
                    Err(e) => return Err(e),
                };
                let git = match parse_git(root) {
                    Ok(g) => g,
                    Err(e) => return Err(e),
                };
                let build = match parse_text_list(root, "build") {
                    Ok(v) => v,
                    Err(e) => return Err(e),
                };
                let run = match parse_text_list(root, "run") {
                    Ok(v) => v,
                    Err(e) => return Err(e),
                };
                let clean = match parse_text_list(root, "clean") {
                    Ok(v) => v,
                    Err(e) => return Err(e),
                };
                let p = Project { path: String::new(), requirements, experiments, git, build, run, clean };
                assert(p@.git == match git {
                    Some(g) => Some(g@),
                    None => None::<FetchSourceV>,
                });
                Ok(p)
            },
            _ => Err(ParsingError::RootNotMapping),
        }
    }

    /// The same project, located at `path`.
    pub fn set_path(self, path: &str) -> (r: Project)
        ensures
            r@ == (ProjectV { path: path@, ..self@ }),
    {
        Project { path: String::from_str(path), ..self }
    }
}

} // verus!
