use vstd::prelude::*;
use crate::error::{AppError, AppErrorV};
use crate::model::{texts_view, Experiment, ExperimentV, Project, ProjectV};
use crate::tsv::push_char;

verus! {

/// The path of the entry `name` inside the directory `dir`.
pub open spec fn child(dir: Seq<char>, name: Seq<char>) -> Seq<char> {
    dir.push('/') + name
}

/// The directories that make up a project's tree, in the order they are made:
/// the root, its `src` and `logs` children, and one `logs/<name>` per experiment.
pub open spec fn tree_spec(p: ProjectV) -> Seq<Seq<char>> {
    seq![p.path, child(p.path, "src"@), child(p.path, "logs"@)]
        + p.experiments.map_values(|e: ExperimentV| child(child(p.path, "logs"@), e.name))
}

fn join_path(dir: &String, name: &str) -> (r: String)
    ensures
        r@ == child(dir@, name@),
{
    let mut r = dir.clone();
    push_char(&mut r, '/');
    r.append(name);
    r
}

/// The directories of the project's tree, in creation order (see `tree_spec`).
pub fn tree_dirs(p: &Project) -> (r: Vec<String>)
    ensures
        texts_view(r) == tree_spec(p@),
{
    let logs = join_path(&p.path, "logs");
    let mut r: Vec<String> = Vec::new();
    r.push(p.path.clone());
    r.push(join_path(&p.path, "src"));
    r.push(logs.clone());
    let ghost head = seq![p.path@, child(p.path@, "src"@), child(p.path@, "logs"@)];
    let ghost names = p@.experiments.map_values(|e: ExperimentV| child(child(p.path@, "logs"@), e.name));
    assert(texts_view(r) =~= head + names.take(0));
    let mut i: usize = 0;
    while i < p.experiments.len()
        invariant
            i <= p.experiments@.len(),
            logs@ == child(p.path@, "logs"@),
            head == seq![p.path@, child(p.path@, "src"@), child(p.path@, "logs"@)],
            names == p@.experiments.map_values(|e: ExperimentV| child(child(p.path@, "logs"@), e.name)),
            texts_view(r) == head + names.take(i as int),
        decreases p.experiments@.len() - i,
    {
        let e: &Experiment = &p.experiments[i];
        let d = join_path(&logs, e.name.as_str());
        let ghost before = r@;
        r.push(d);
        assert(texts_view(r) =~= texts_view(r).take(before.len() as int).push(d@));
        assert(texts_view(r).take(before.len() as int) =~= texts_view(r).drop_last());
        assert(head + names.take(i + 1) =~= (head + names.take(i as int)).push(names[i as int]));
        assert(texts_view(r).drop_last() =~= before.map_values(|s: String| s@));
        i = i + 1;
    }
    assert(names.take(p.experiments@.len() as int) =~= names);
    r
}

// ---------------------------------------------------------------- builder

/// What the caller saw since the builder's last action.
pub enum TreeEvent {
    /// Nothing yet: the first call.
    Start,
    /// Whether the directory asked about exists.
    Exists(bool),
    /// The outcome of creating the directory asked for, with the system's reason on failure.
    Made(Result<(), String>),
}

/// What the builder asks the caller to do next.
pub enum TreeAction {
    /// Tell whether this directory exists.
    Probe(String),
    /// Create this directory.
    Create(String),
    /// Every directory exists.
    Done,
    /// A creation failed; nothing more is created.
    Failed(AppError),
}

/// Makes a project's tree one directory at a time: each directory is probed,
/// created only where it does not exist, and the first failed creation ends the
/// run with the path and the reason.
pub struct TreeBuilder {
    dirs: Vec<String>,
    next: usize,
    finished: bool,
}

pub struct TreeBuilderV {
    pub dirs: Seq<Seq<char>>,
    pub next: nat,
    pub finished: bool,
}

impl View for TreeBuilder {
    type V = TreeBuilderV;

    closed spec fn view(&self) -> TreeBuilderV {
        TreeBuilderV { dirs: texts_view(self.dirs), next: self.next as nat, finished: self.finished }
    }
}

pub enum TreeEventV {
    Start,
    Exists(bool),
    /// `None` for a creation that succeeded, else the reason it failed.
    Made(Option<Seq<char>>),
}

pub enum TreeActionV {
    Probe(Seq<char>),
    Create(Seq<char>),
    Done,
    Failed(AppErrorV),
}

impl View for TreeEvent {
    type V = TreeEventV;

    open spec fn view(&self) -> TreeEventV {
        match self {
            TreeEvent::Start => TreeEventV::Start,
            TreeEvent::Exists(e) => TreeEventV::Exists(*e),
            TreeEvent::Made(Ok(())) => TreeEventV::Made(None),
            TreeEvent::Made(Err(c)) => TreeEventV::Made(Some(c@)),
        }
    }
}

impl View for TreeAction {
    type V = TreeActionV;

    open spec fn view(&self) -> TreeActionV {
        match self {
            TreeAction::Probe(d) => TreeActionV::Probe(d@),
            TreeAction::Create(d) => TreeActionV::Create(d@),
            TreeAction::Done => TreeActionV::Done,
            TreeAction::Failed(e) => TreeActionV::Failed(e@),
        }
    }
}

/// Hands out the next directory to probe, or finishes when none is left.
pub open spec fn advance_spec(b: TreeBuilderV) -> (TreeBuilderV, TreeActionV) {
    if b.next < b.dirs.len() {
        (TreeBuilderV { next: b.next + 1, ..b }, TreeActionV::Probe(b.dirs[b.next as int]))
    } else {
        (TreeBuilderV { finished: true, ..b }, TreeActionV::Done)
    }
}

/// One step of the builder: after the start, an existing directory or a
/// successful creation, the next directory is probed; a missing one is created;
/// a failed creation ends the run with its path and reason. A finished builder
/// stays finished, and so does one told of a missing directory or a failure
/// before it probed any.
pub open spec fn step_spec(b: TreeBuilderV, ev: TreeEventV) -> (TreeBuilderV, TreeActionV) {
    if b.finished {
        (b, TreeActionV::Done)
    } else {
        match ev {
            TreeEventV::Start => advance_spec(b),
            TreeEventV::Exists(true) => advance_spec(b),
            TreeEventV::Made(None) => advance_spec(b),
            TreeEventV::Exists(false) => if b.next == 0 {
                (TreeBuilderV { finished: true, ..b }, TreeActionV::Done)
            } else {
                (b, TreeActionV::Create(b.dirs[b.next - 1]))
            },
            TreeEventV::Made(Some(cause)) => if b.next == 0 {
                (TreeBuilderV { finished: true, ..b }, TreeActionV::Done)
            } else {
                (TreeBuilderV { finished: true, ..b }, TreeActionV::Failed(AppErrorV::IOError(b.dirs[b.next - 1], cause)))
            },
        }
    }
}

/// Runs the builder from `b`, told `ev`, against the directory set `fs` in
/// which every creation succeeds, for at most `fuel` steps: the directory set
/// at the end, the directories created in order, and whether it finished.
pub open spec fn drive(b: TreeBuilderV, ev: TreeEventV, fs: Set<Seq<char>>, fuel: nat) -> (Set<Seq<char>>, Seq<Seq<char>>, bool)
    decreases fuel,
{
    if fuel == 0 {
        (fs, Seq::empty(), false)
    } else {
        let (b2, a) = step_spec(b, ev);
        match a {
            TreeActionV::Probe(d) => drive(b2, TreeEventV::Exists(fs.contains(d)), fs, (fuel - 1) as nat),
            TreeActionV::Create(d) => {
                let (f, c, ok) = drive(b2, TreeEventV::Made(None), fs.insert(d), (fuel - 1) as nat);
                (f, seq![d] + c, ok)
            },
            TreeActionV::Done => (fs, Seq::empty(), true),
            TreeActionV::Failed(_) => (fs, Seq::empty(), false),
        }
    }
}

/// A builder that starts on the directories `dirs`.
pub open spec fn fresh_builder(dirs: Seq<Seq<char>>) -> TreeBuilderV {
    TreeBuilderV { dirs, next: 0, finished: false }
}

impl TreeBuilder {
    pub closed spec fn wf(&self) -> bool {
        self.next <= self.dirs@.len()
    }

    pub fn new(p: &Project) -> (r: TreeBuilder)
        ensures
            r.wf(),
            r@ == (TreeBuilderV { dirs: tree_spec(p@), next: 0, finished: false }),
    {
        TreeBuilder { dirs: tree_dirs(p), next: 0, finished: false }
    }

    /// The next action, given what happened since the last one (see `step_spec`).
    pub fn step(&mut self, event: TreeEvent) -> (r: TreeAction)
        requires
            old(self).wf(),
        ensures
            final(self).wf(),
            (final(self)@, r@) == step_spec(old(self)@, event@),
    {
        if self.finished {
            return TreeAction::Done;
        }
        let advance = match &event {
            TreeEvent::Start => true,
            TreeEvent::Exists(e) => *e,
            TreeEvent::Made(Ok(())) => true,
            TreeEvent::Made(Err(_)) => false,
        };
        if advance {
            if self.next < self.dirs.len() {
                let d = self.dirs[self.next].clone();
                self.next = self.next + 1;
                TreeAction::Probe(d)
            } else {
                self.finished = true;
                TreeAction::Done
            }
        } else if self.next == 0 {
            self.finished = true;
            TreeAction::Done
        } else {
            let d = self.dirs[self.next - 1].clone();
            match event {
                TreeEvent::Made(Err(cause)) => {
                    self.finished = true;
                    TreeAction::Failed(AppError::IOError(d, cause))
                },
                _ => TreeAction::Create(d),
            }
        }
    }
}

// ---------------------------------------------------------------- filesystem model

/// The directories that making `dirs` in order creates, starting from the
/// existing set `fs`: each one that does not exist yet at its turn.
pub open spec fn created(fs: Set<Seq<char>>, dirs: Seq<Seq<char>>) -> Seq<Seq<char>>
    decreases dirs.len(),
{
    if dirs.len() == 0 {
        Seq::empty()
    } else if fs.contains(dirs[0]) {
        created(fs, dirs.drop_first())
    } else {
        seq![dirs[0]] + created(fs.insert(dirs[0]), dirs.drop_first())
    }
}

/// The directory set after making `dirs` (all creations succeeding) from `fs`.
pub open spec fn after_making(fs: Set<Seq<char>>, dirs: Seq<Seq<char>>) -> Set<Seq<char>> {
    fs + dirs.to_set()
}

/// Whether `d` is the directory `root` or lies below it.
pub open spec fn under(d: Seq<char>, root: Seq<char>) -> bool {
    d == root || root.push('/').is_prefix_of(d)
}

/// The directory set after removing the tree rooted at `root`.
pub open spec fn without_tree(fs: Set<Seq<char>>, root: Seq<char>) -> Set<Seq<char>> {
    fs.filter(|d: Seq<char>| !under(d, root))
}

/// Where every one of `dirs` already exists, making them creates nothing.
pub proof fn lemma_nothing_created(fs: Set<Seq<char>>, dirs: Seq<Seq<char>>)
    requires
        forall|i: int| 0 <= i < dirs.len() ==> fs.contains(#[trigger] dirs[i]),
    ensures
        created(fs, dirs) == Seq::<Seq<char>>::empty(),
    decreases dirs.len(),
{
    if dirs.len() > 0 {
        assert forall|i: int| 0 <= i < dirs.drop_first().len() implies fs.contains(#[trigger] dirs.drop_first()[i]) by {
            assert(dirs.drop_first()[i] == dirs[i + 1]);
        }
        lemma_nothing_created(fs, dirs.drop_first());
    }
}

proof fn lemma_skip_to_set(dirs: Seq<Seq<char>>, k: int)
    requires
        0 <= k < dirs.len(),
    ensures
        dirs.skip(k).to_set() == dirs.skip(k + 1int).to_set().insert(dirs[k]),
{
    let a = dirs.skip(k);
    let b = dirs.skip(k + 1int);
    assert forall|x: Seq<char>| a.to_set().contains(x) <==> b.to_set().insert(dirs[k]).contains(x) by {
        if a.contains(x) {
            let i = choose|i: int| 0 <= i < a.len() && a[i] == x;
            if i > 0 {
                assert(b[i - 1] == x);
            }
        }
        if b.contains(x) {
            let i = choose|i: int| 0 <= i < b.len() && b[i] == x;
            assert(a[i + 1] == x);
        }
        if x == dirs[k] {
            assert(a[0] == x);
        }
    }
    assert(a.to_set() =~= b.to_set().insert(dirs[k]));
}

proof fn lemma_drive_from(dirs: Seq<Seq<char>>, k: nat, ev: TreeEventV, fs: Set<Seq<char>>, fuel: nat)
    requires
        k <= dirs.len(),
        ev is Start || ev == TreeEventV::Exists(true) || ev == TreeEventV::Made(None),
        fuel >= 2 * (dirs.len() - k) + 1,
    ensures
        drive(TreeBuilderV { dirs, next: k, finished: false }, ev, fs, fuel)
            == (after_making(fs, dirs.skip(k as int)), created(fs, dirs.skip(k as int)), true),
    decreases dirs.len() - k,
{
    let b = TreeBuilderV { dirs, next: k, finished: false };
    assert(step_spec(b, ev) == advance_spec(b));
    let rest = dirs.skip(k as int);
    if k == dirs.len() {
        assert(rest =~= Seq::<Seq<char>>::empty());
        assert(after_making(fs, rest) =~= fs);
    } else {
        let d = dirs[k as int];
        let b1 = TreeBuilderV { next: k + 1, ..b };
        assert(rest[0] == d);
        assert(rest.drop_first() =~= dirs.skip(k + 1int));
        lemma_skip_to_set(dirs, k as int);
        if fs.contains(d) {
            lemma_drive_from(dirs, k + 1, TreeEventV::Exists(true), fs, (fuel - 1) as nat);
            assert(after_making(fs, rest) =~= after_making(fs, dirs.skip(k + 1int)));
        } else {
            let f2 = (fuel - 1) as nat;
            assert(drive(b, ev, fs, fuel) == drive(b1, TreeEventV::Exists(false), fs, f2));
            assert(step_spec(b1, TreeEventV::Exists(false)) == (b1, TreeActionV::Create(d)));
            lemma_drive_from(dirs, k + 1, TreeEventV::Made(None), fs.insert(d), (f2 - 1) as nat);
            assert(after_making(fs, rest) =~= after_making(fs.insert(d), dirs.skip(k + 1int)));
        }
    }
}

/// Enough steps for a builder to go through `dirs`: a probe and a creation each.
pub open spec fn tree_fuel(dirs: Seq<Seq<char>>) -> nat {
    2 * dirs.len() + 1
}

/// Run against a directory set in which creations succeed, the builder creates
/// exactly the missing directories of the tree, in order, and finishes with
/// the set `after_making`.
pub proof fn lemma_builder_makes_tree(fs: Set<Seq<char>>, dirs: Seq<Seq<char>>)
    ensures
        drive(fresh_builder(dirs), TreeEventV::Start, fs, tree_fuel(dirs))
            == (after_making(fs, dirs), created(fs, dirs), true),
{
    lemma_drive_from(dirs, 0, TreeEventV::Start, fs, tree_fuel(dirs));
    assert(dirs.skip(0) =~= dirs);
}

/// Running the builder on a project's tree twice in a row: the second run
/// creates nothing (so no creation can fail), finishes, and leaves the
/// directory set as the first run left it.
pub proof fn lemma_tree_idempotent(fs: Set<Seq<char>>, p: ProjectV)
    ensures
        ({
            let dirs = tree_spec(p);
            let first = drive(fresh_builder(dirs), TreeEventV::Start, fs, tree_fuel(dirs));
            &&& first.2
            &&& drive(fresh_builder(dirs), TreeEventV::Start, first.0, tree_fuel(dirs))
                == (first.0, Seq::<Seq<char>>::empty(), true)
        }),
{
    let dirs = tree_spec(p);
    let once = after_making(fs, dirs);
    lemma_builder_makes_tree(fs, dirs);
    lemma_builder_makes_tree(once, dirs);
    assert forall|i: int| 0 <= i < dirs.len() implies once.contains(#[trigger] dirs[i]) by {
        assert(dirs.to_set().contains(dirs[i]));
    }
    lemma_nothing_created(once, dirs);
    assert(after_making(once, dirs) =~= once);
}

/// After a first run of the builder, a clean that removes any set `removed` of
/// directories, then a second run: every directory of the tree is back, the
/// second run finishes, and only what the clean removed outside the tree stays
/// removed. Where the clean removed only directories of the tree, the directory
/// set is exactly the one the first run left.
pub proof fn lemma_rebuild_after_clean(fs: Set<Seq<char>>, p: ProjectV, removed: Set<Seq<char>>)
    ensures
        ({
            let dirs = tree_spec(p);
            let first = drive(fresh_builder(dirs), TreeEventV::Start, fs, tree_fuel(dirs)).0;
            let again = drive(fresh_builder(dirs), TreeEventV::Start, first.difference(removed), tree_fuel(dirs));
            &&& again.2
            &&& again.0 == first.difference(removed.difference(dirs.to_set()))
            &&& removed.subset_of(dirs.to_set()) ==> again.0 == first
        }),
{
    let dirs = tree_spec(p);
    lemma_builder_makes_tree(fs, dirs);
    let first = after_making(fs, dirs);
    lemma_builder_makes_tree(first.difference(removed), dirs);
    assert(after_making(first.difference(removed), dirs) =~= first.difference(removed.difference(dirs.to_set())));
    if removed.subset_of(dirs.to_set()) {
        assert(first.difference(removed.difference(dirs.to_set())) =~= first);
    }
}

proof fn lemma_child_under(root: Seq<char>, name: Seq<char>)
    ensures
        under(child(root, name), root),
{
    assert(child(root, name).subrange(0, root.push('/').len() as int) =~= root.push('/'));
}

proof fn lemma_tree_under(p: ProjectV)
    ensures
        forall|i: int| 0 <= i < tree_spec(p).len() ==> under(#[trigger] tree_spec(p)[i], p.path),
{
    let dirs = tree_spec(p);
    assert forall|i: int| 0 <= i < dirs.len() implies under(#[trigger] dirs[i], p.path) by {
        if i == 1 {
            lemma_child_under(p.path, "src"@);
        } else if i == 2 {
            lemma_child_under(p.path, "logs"@);
        } else if i > 2 {
            let e = p.experiments[i - 3];
            let logs = child(p.path, "logs"@);
            assert(dirs[i] == child(logs, e.name));
            assert(child(logs, e.name) =~= child(p.path, "logs"@.push('/') + e.name));
            lemma_child_under(p.path, "logs"@.push('/') + e.name);
        }
    }
}

/// Removing a project's whole tree and running the builder again gives, below
/// the project's root, exactly the directories that a first run on an empty
/// disk gives.
pub proof fn lemma_rebuild_below_root(fs: Set<Seq<char>>, p: ProjectV)
    ensures
        ({
            let dirs = tree_spec(p);
            let again = drive(fresh_builder(dirs), TreeEventV::Start, without_tree(fs, p.path), tree_fuel(dirs)).0;
            let fresh = drive(fresh_builder(dirs), TreeEventV::Start, Set::<Seq<char>>::empty(), tree_fuel(dirs)).0;
            again.filter(|d: Seq<char>| under(d, p.path)) == fresh
        }),
{
    let dirs = tree_spec(p);
    lemma_builder_makes_tree(without_tree(fs, p.path), dirs);
    lemma_builder_makes_tree(Set::<Seq<char>>::empty(), dirs);
    lemma_tree_under(p);
    let lhs = after_making(without_tree(fs, p.path), dirs).filter(|d: Seq<char>| under(d, p.path));
    let rhs = after_making(Set::<Seq<char>>::empty(), dirs);
    assert forall|d: Seq<char>| lhs.contains(d) <==> rhs.contains(d) by {
        if rhs.contains(d) {
            let i = choose|i: int| 0 <= i < dirs.len() && dirs[i] == d;
            assert(under(dirs[i], p.path));
        }
    }
    assert(lhs =~= rhs);
}

} // verus!
