//! Profile discovery and activation.
//!
//! Discovery walks the candidate chain of a starting directory — the
//! repository-local `<start>/.git` slot first, then the ancestor chain — and
//! inspects `.gitconf/current` (for the effective configuration) or
//! `.gitconf/profiles` (for the available profiles) at every level. Levels
//! are processed in reverse candidate order, farthest ancestor first, so
//! that closer levels win under the merge law.
//!
//! Reading directories and files is the caller's business: it hands in one
//! [`CurrentLevel`] or [`ProfilesLevel`] per candidate, in processing order,
//! and the functions here compute the resolved configuration, the available
//! profile table, or the activation steps from those plain values.

use vstd::prelude::*;

use crate::cfg::finalize_view;
use crate::cfg::merge_view;
use crate::cfg::Config;
use crate::cfg::OptionConfig;
use crate::cfg::OptionConfigView;
use crate::pth::walk_chain;
use crate::pth::walk_from;
use crate::pth::DirPath;
use crate::smap::StringMap;

verus! {

/// Put one element before a vector's contents.
pub fn prepend<T>(v: Vec<T>, s: T) -> (r: Vec<T>)
    ensures
        r@ == seq![s] + v@,
{
    let mut rest = v;
    let mut r: Vec<T> = Vec::new();
    r.push(s);
    r.append(&mut rest);
    proof {
        assert(r@ =~= seq![s] + v@);
    }
    r
}

/// The discovery candidates of one starting directory: the repository-local
/// override slot `<start>/.git` first, then the walked ancestor chain.
pub open spec fn candidate_chain(start: Seq<Seq<char>>) -> Seq<Seq<Seq<char>>> {
    seq![start.push(".git"@)] + walk_chain(start)
}

/// Materialize the candidate chain of `start`, in candidate order.
pub fn candidate_dirs(start: &DirPath) -> (r: Vec<DirPath>)
    ensures
        r@.map_values(|d: DirPath| d@) == candidate_chain(start@),
{
    let chain = walk_from(start);
    let git = start.joined(String::from_str(".git"));
    let r = prepend(chain, git);
    proof {
        assert(r@.map_values(|d: DirPath| d@) =~= candidate_chain(start@));
    }
    r
}

/// The directories a scan visits, in processing order: the candidate chain
/// reversed — farthest ancestor first — each extended by `.gitconf/<leaf>`.
pub open spec fn scan_chain(start: Seq<Seq<char>>, leaf: Seq<char>) -> Seq<Seq<Seq<char>>> {
    candidate_chain(start).reverse().map_values(
        |d: Seq<Seq<char>>| d.push(".gitconf"@).push(leaf),
    )
}

/// Materialize the scan directories of `start`, in processing order.
pub fn scan_dirs(start: &DirPath, leaf: String) -> (r: Vec<DirPath>)
    ensures
        r@.map_values(|d: DirPath| d@) == scan_chain(start@, leaf@),
{
    let cands = candidate_dirs(start);
    let n = cands.len();
    let mut r: Vec<DirPath> = Vec::new();
    let mut i: usize = 0;
    while i < n
        invariant
            n == cands@.len(),
            cands@.map_values(|d: DirPath| d@) == candidate_chain(start@),
            i <= n,
            r@.len() == i,
            forall|k: int|
                0 <= k < i ==> r@[k]@ == cands@[n - 1 - k]@.push(".gitconf"@).push(leaf@),
        decreases n - i,
    {
        let d = cands[n - 1 - i].joined(String::from_str(".gitconf")).joined(leaf.clone());
        r.push(d);
        i += 1;
    }
    proof {
        assert forall|k: int| 0 <= k < n implies r@[k]@ == scan_chain(start@, leaf@)[k] by {
            assert(cands@[n - 1 - k]@ == candidate_chain(start@)[n - 1 - k]);
            assert(candidate_chain(start@).reverse()[k] == candidate_chain(start@)[n - 1 - k]);
        }
        assert(r@.map_values(|d: DirPath| d@) =~= scan_chain(start@, leaf@));
    }
    r
}

/// What one `current` level held, as observed by the caller.
#[derive(Debug)]
pub enum CurrentLevel {
    /// No readable directory at this level.
    Missing,
    /// A directory with no file: skipped silently.
    Empty,
    /// A directory with more than one file: ambiguous, skipped.
    Ambiguous,
    /// Exactly one file: its path, and its parsed document — `None` where
    /// the file could not be read or did not parse.
    One { path: String, doc: Option<OptionConfig> },
}

/// The mathematical content of one observed `current` level.
pub ghost enum CurrentLevelView {
    Missing,
    Empty,
    Ambiguous,
    One { path: Seq<char>, doc: Option<OptionConfigView> },
}

impl View for CurrentLevel {
    type V = CurrentLevelView;

    open spec fn view(&self) -> CurrentLevelView {
        match self {
            CurrentLevel::Missing => CurrentLevelView::Missing,
            CurrentLevel::Empty => CurrentLevelView::Empty,
            CurrentLevel::Ambiguous => CurrentLevelView::Ambiguous,
            CurrentLevel::One { path, doc } => CurrentLevelView::One {
                path: path@,
                doc: match doc {
                    Some(d) => Some(d@),
                    None => None,
                },
            },
        }
    }
}

impl CurrentLevel {
    /// A document it carries, if any, keeps its settings keys unique.
    pub open spec fn wf(&self) -> bool {
        match self {
            CurrentLevel::One { path: _, doc: Some(d) } => d.wf(),
            _ => true,
        }
    }
}

/// The document one level contributes to the merge, if any.
pub open spec fn level_doc(l: CurrentLevelView) -> Option<OptionConfigView> {
    match l {
        CurrentLevelView::One { path: _, doc } => doc,
        _ => None,
    }
}

/// The accumulator after processing a sequence of levels in order.
pub open spec fn merged_levels(
    acc: OptionConfigView,
    levels: Seq<CurrentLevelView>,
) -> OptionConfigView
    decreases levels.len(),
{
    if levels.len() == 0 {
        acc
    } else {
        let rest = merged_levels(acc, levels.drop_last());
        match level_doc(levels.last()) {
            Some(d) => merge_view(rest, d),
            None => rest,
        }
    }
}

/// The recorded active profile path: the one of the last level that
/// contributed a document, absent where none ever did.
pub open spec fn active_path(levels: Seq<CurrentLevelView>) -> Option<Seq<char>>
    decreases levels.len(),
{
    if levels.len() == 0 {
        None
    } else {
        match levels.last() {
            CurrentLevelView::One { path, doc: Some(_) } => Some(path),
            _ => active_path(levels.drop_last()),
        }
    }
}

/// Discovery precedence: the closest level that contributes a document has
/// its document merged last, so its present fields win under the merge law.
pub proof fn lemma_closest_level_merges_last(
    acc: OptionConfigView,
    levels: Seq<CurrentLevelView>,
    l: CurrentLevelView,
)
    requires
        level_doc(l) is Some,
    ensures
        merged_levels(acc, levels.push(l)) == merge_view(merged_levels(acc, levels), level_doc(l)->0),
{
    assert(levels.push(l).drop_last() =~= levels);
    assert(levels.push(l).last() == l);
}

/// The closest level that contributes a document is the recorded active
/// profile, whatever the farther levels held.
pub proof fn lemma_active_path_is_closest(levels: Seq<CurrentLevelView>, p: Seq<char>, d: OptionConfigView)
    ensures
        active_path(levels.push(CurrentLevelView::One { path: p, doc: Some(d) })) == Some(p),
{
    let l = CurrentLevelView::One { path: p, doc: Some(d) };
    assert(levels.push(l).last() == l);
}

/// Fold the observed `current` levels, in processing order, into the
/// resolved configuration and the active profile path.
///
/// Every level with exactly one parseable document is merged into the
/// accumulator and recorded as the active path; empty, ambiguous, missing
/// and unparsable levels contribute nothing. The accumulator starts from
/// the all-absent document and is finalized with the documented defaults.
pub fn resolve_current_configuration(levels: &Vec<CurrentLevel>) -> (r: (Config, Option<String>))
    requires
        forall|i: int| 0 <= i < levels@.len() ==> levels@[i].wf(),
    ensures
        r.0.wf(),
        r.0@ == finalize_view(
            merged_levels(
                OptionConfigView::absent(),
                levels@.map_values(|l: CurrentLevel| l@),
            ),
        ),
        match r.1 {
            Some(p) => active_path(levels@.map_values(|l: CurrentLevel| l@)) == Some(p@),
            None => active_path(levels@.map_values(|l: CurrentLevel| l@)) is None,
        },
{
    let ghost lv = levels@.map_values(|l: CurrentLevel| l@);
    let mut opt = OptionConfig::new();
    let mut found: Option<String> = None;
    let n = levels.len();
    let mut i: usize = 0;
    while i < n
        invariant
            forall|k: int| 0 <= k < levels@.len() ==> levels@[k].wf(),
            lv == levels@.map_values(|l: CurrentLevel| l@),
            n == levels@.len(),
            i <= n,
            opt.wf(),
            opt@ == merged_levels(OptionConfigView::absent(), lv.take(i as int)),
            match found {
                Some(p) => active_path(lv.take(i as int)) == Some(p@),
                None => active_path(lv.take(i as int)) is None,
            },
        decreases n - i,
    {
        proof {
            assert(lv.take(i as int + 1).drop_last() =~= lv.take(i as int));
            assert(lv.take(i as int + 1).last() == lv[i as int]);
            assert(lv[i as int] == levels@[i as int]@);
        }
        match &levels[i] {
            CurrentLevel::One { path, doc: Some(d) } => {
                found = Some(path.clone());
                opt.merge(d);
            },
            _ => {},
        }
        i += 1;
    }
    proof {
        assert(lv.take(n as int) =~= lv);
    }
    (opt.to_config(), found)
}

/// One file found in a `profiles` directory, as observed by the caller:
/// its name, its full path, and whether it parses as a profile document.
#[derive(Debug)]
pub struct ProfileFile {
    pub name: String,
    pub path: String,
    pub parses: bool,
}

/// The mathematical content of one observed profile file.
pub ghost struct ProfileFileView {
    pub name: Seq<char>,
    pub path: Seq<char>,
    pub parses: bool,
}

impl View for ProfileFile {
    type V = ProfileFileView;

    open spec fn view(&self) -> ProfileFileView {
        ProfileFileView { name: self.name@, path: self.path@, parses: self.parses }
    }
}

/// The files of one `profiles` level, in directory order; empty where the
/// directory is missing or unreadable.
#[derive(Debug)]
pub struct ProfilesLevel {
    pub files: Vec<ProfileFile>,
}

impl View for ProfilesLevel {
    type V = Seq<ProfileFileView>;

    open spec fn view(&self) -> Seq<ProfileFileView> {
        self.files@.map_values(|f: ProfileFile| f@)
    }
}

/// The profile table after one level: every parseable file of the level is
/// inserted over the accumulated table, in directory order.
pub open spec fn profiles_in_level(
    acc: Map<Seq<char>, Seq<char>>,
    files: Seq<ProfileFileView>,
) -> Map<Seq<char>, Seq<char>>
    decreases files.len(),
{
    if files.len() == 0 {
        acc
    } else {
        let rest = profiles_in_level(acc, files.drop_last());
        let f = files.last();
        if f.parses {
            rest.insert(f.name, f.path)
        } else {
            rest
        }
    }
}

/// The profile table after all levels, in processing order.
pub open spec fn profiles_map(levels: Seq<Seq<ProfileFileView>>) -> Map<Seq<char>, Seq<char>>
    decreases levels.len(),
{
    if levels.len() == 0 {
        Map::empty()
    } else {
        profiles_in_level(profiles_map(levels.drop_last()), levels.last())
    }
}

/// A name is in the table of one level exactly when it was already
/// accumulated or some parseable file of the level carries it.
pub proof fn lemma_profiles_in_level_contains(
    acc: Map<Seq<char>, Seq<char>>,
    files: Seq<ProfileFileView>,
    x: Seq<char>,
)
    ensures
        profiles_in_level(acc, files).dom().contains(x) <==> acc.dom().contains(x) || exists|j: int|
            0 <= j < files.len() && files[j].parses && files[j].name == x,
    decreases files.len(),
{
    if files.len() > 0 {
        lemma_profiles_in_level_contains(acc, files.drop_last(), x);
        if files.last().parses && files.last().name == x {
            assert(files[files.len() - 1].parses && files[files.len() - 1].name == x);
        } else if exists|j: int| 0 <= j < files.len() && files[j].parses && files[j].name == x {
            let j = choose|j: int| 0 <= j < files.len() && files[j].parses && files[j].name == x;
            assert(files.drop_last()[j] == files[j]);
        }
    }
}

/// The last parseable file under a name within a level decides its path.
pub proof fn lemma_profiles_in_level_last(
    acc: Map<Seq<char>, Seq<char>>,
    files: Seq<ProfileFileView>,
    j: int,
)
    requires
        0 <= j < files.len(),
        files[j].parses,
        forall|k: int| j < k < files.len() ==> !(files[k].parses && files[k].name == files[j].name),
    ensures
        profiles_in_level(acc, files).dom().contains(files[j].name),
        profiles_in_level(acc, files)[files[j].name] == files[j].path,
    decreases files.len(),
{
    if j == files.len() - 1 {
    } else {
        assert(files.drop_last()[j] == files[j]);
        lemma_profiles_in_level_last(acc, files.drop_last(), j);
        assert(!(files.last().parses && files.last().name == files[j].name));
    }
}

/// Discovery precedence for profiles: within the closest level that names a
/// profile, the last parseable file under that name decides its path, over
/// every farther level.
pub proof fn lemma_closest_profile_wins(
    levels: Seq<Seq<ProfileFileView>>,
    l: Seq<ProfileFileView>,
    j: int,
)
    requires
        0 <= j < l.len(),
        l[j].parses,
        forall|k: int| j < k < l.len() ==> !(l[k].parses && l[k].name == l[j].name),
    ensures
        profiles_map(levels.push(l)).dom().contains(l[j].name),
        profiles_map(levels.push(l))[l[j].name] == l[j].path,
{
    assert(levels.push(l).drop_last() =~= levels);
    assert(levels.push(l).last() == l);
    lemma_profiles_in_level_last(profiles_map(levels), l, j);
}

/// Collect the observed `profiles` levels, in processing order, into the
/// table of available profiles: one entry per distinct file name, closer
/// levels and later files overriding farther and earlier ones; files that
/// do not parse are excluded.
pub fn resolve_available_profiles(levels: &Vec<ProfilesLevel>) -> (r: StringMap)
    ensures
        r.wf(),
        r@ == profiles_map(levels@.map_values(|l: ProfilesLevel| l@)),
{
    let ghost lv = levels@.map_values(|l: ProfilesLevel| l@);
    let mut table = StringMap::new();
    let n = levels.len();
    let mut i: usize = 0;
    while i < n
        invariant
            lv == levels@.map_values(|l: ProfilesLevel| l@),
            n == levels@.len(),
            i <= n,
            table.wf(),
            table@ == profiles_map(lv.take(i as int)),
        decreases n - i,
    {
        let ghost fv = levels@[i as int]@;
        let m = levels[i].files.len();
        let mut j: usize = 0;
        while j < m
            invariant
                lv == levels@.map_values(|l: ProfilesLevel| l@),
                n == levels@.len(),
                i < n,
                fv == levels@[i as int]@,
                m == levels@[i as int].files@.len(),
                j <= m,
                table.wf(),
                table@ == profiles_in_level(profiles_map(lv.take(i as int)), fv.take(j as int)),
            decreases m - j,
        {
            proof {
                assert(fv.take(j as int + 1).drop_last() =~= fv.take(j as int));
                assert(fv.take(j as int + 1).last() == fv[j as int]);
                assert(fv[j as int] == levels@[i as int].files@[j as int]@);
            }
            let f = &levels[i].files[j];
            if f.parses {
                table.insert(f.name.clone(), f.path.clone());
            }
            j += 1;
        }
        proof {
            assert(fv.take(m as int) =~= fv);
            assert(lv.take(i as int + 1).drop_last() =~= lv.take(i as int));
            assert(lv.take(i as int + 1).last() == lv[i as int]);
            assert(lv[i as int] == levels@[i as int]@);
        }
        i += 1;
    }
    proof {
        assert(lv.take(n as int) =~= lv);
    }
    table
}

/// Where the active-profile override slot of a target directory lies:
/// inside `<target>/.git` where that exists, else directly under the target.
pub open spec fn slot_dir(target: Seq<Seq<char>>, has_git: bool) -> Seq<Seq<char>> {
    if has_git {
        target.push(".git"@).push(".gitconf"@).push("current"@)
    } else {
        target.push(".gitconf"@).push("current"@)
    }
}

/// Compute the override slot for a target directory; `has_git` says whether
/// `<target>/.git` exists.
pub fn activation_slot(target: &DirPath, has_git: bool) -> (r: DirPath)
    ensures
        r@ == slot_dir(target@, has_git),
{
    let base = if has_git {
        target.joined(String::from_str(".git"))
    } else {
        target.duplicate()
    };
    base.joined(String::from_str(".gitconf")).joined(String::from_str("current"))
}

/// One filesystem step of activation.
#[derive(Debug, PartialEq, Eq, Structural)]
pub enum FsAction {
    /// Remove the slot recursively (it exists and is a directory).
    RemoveDirAll,
    /// Remove the slot (it exists and is a plain file).
    RemoveFile,
    /// (Re)create the slot directory.
    CreateDirAll,
    /// Copy the source file into the slot under its own name.
    CopySource,
}

/// The steps that clear and refill the slot, given what is there now.
pub open spec fn activation_steps(slot_exists: bool, slot_is_dir: bool) -> Seq<FsAction> {
    let clear = if slot_exists {
        if slot_is_dir {
            seq![FsAction::RemoveDirAll]
        } else {
            seq![FsAction::RemoveFile]
        }
    } else {
        Seq::empty()
    };
    clear + seq![FsAction::CreateDirAll, FsAction::CopySource]
}

/// Plan the activation of a source file: the slot is fully cleared, then
/// recreated, then the source is copied in. The caller reports what the
/// slot currently is and performs the returned steps in order, aborting on
/// the first failure.
pub fn activation_actions(slot_exists: bool, slot_is_dir: bool) -> (r: Vec<FsAction>)
    ensures
        r@ == activation_steps(slot_exists, slot_is_dir),
{
    let mut r: Vec<FsAction> = Vec::new();
    if slot_exists {
        if slot_is_dir {
            r.push(FsAction::RemoveDirAll);
        } else {
            r.push(FsAction::RemoveFile);
        }
    }
    r.push(FsAction::CreateDirAll);
    r.push(FsAction::CopySource);
    proof {
        assert(r@ =~= activation_steps(slot_exists, slot_is_dir));
    }
    r
}

/// The slot contents — file name to file content — after one step, for a
/// source file named `name` holding `content`.
pub open spec fn slot_after_action(
    slot: Map<Seq<char>, Seq<char>>,
    a: FsAction,
    name: Seq<char>,
    content: Seq<char>,
) -> Map<Seq<char>, Seq<char>> {
    match a {
        FsAction::RemoveDirAll => Map::empty(),
        FsAction::RemoveFile => Map::empty(),
        FsAction::CreateDirAll => slot,
        FsAction::CopySource => slot.insert(name, content),
    }
}

/// The slot contents after a sequence of steps, performed in order.
pub open spec fn slot_after_actions(
    slot: Map<Seq<char>, Seq<char>>,
    actions: Seq<FsAction>,
    name: Seq<char>,
    content: Seq<char>,
) -> Map<Seq<char>, Seq<char>>
    decreases actions.len(),
{
    if actions.len() == 0 {
        slot
    } else {
        slot_after_action(
            slot_after_actions(slot, actions.drop_last(), name, content),
            actions.last(),
            name,
            content,
        )
    }
}

/// Whatever the slot held before, the activation steps leave exactly one
/// file in it: the copied source. A slot that does not exist holds nothing.
pub proof fn lemma_activation_exact(
    slot: Map<Seq<char>, Seq<char>>,
    slot_exists: bool,
    slot_is_dir: bool,
    name: Seq<char>,
    content: Seq<char>,
)
    requires
        slot_exists || slot == Map::<Seq<char>, Seq<char>>::empty(),
    ensures
        slot_after_actions(slot, activation_steps(slot_exists, slot_is_dir), name, content)
            == map![name => content],
{
    let steps = activation_steps(slot_exists, slot_is_dir);
    let clear = if slot_exists {
        if slot_is_dir {
            seq![FsAction::RemoveDirAll]
        } else {
            seq![FsAction::RemoveFile]
        }
    } else {
        Seq::<FsAction>::empty()
    };
    let s1 = steps.drop_last();
    let s2 = s1.drop_last();
    assert(steps.len() == clear.len() + 2);
    assert(steps.last() == FsAction::CopySource);
    assert(s1.last() == FsAction::CreateDirAll);
    assert(s2 =~= clear);
    if slot_exists {
        assert(s2.len() == 1);
        assert(s2.drop_last() =~= Seq::<FsAction>::empty());
        assert(slot_after_actions(slot, s2.drop_last(), name, content) == slot);
        assert(s2.last() == clear.last());
        assert(slot_after_actions(slot, s2, name, content)
            == Map::<Seq<char>, Seq<char>>::empty());
    } else {
        assert(s2.len() == 0);
        assert(slot_after_actions(slot, s2, name, content) == slot);
    }
    assert(slot_after_actions(slot, s1, name, content) == slot_after_actions(
        slot,
        s2,
        name,
        content,
    ));
    assert(slot_after_actions(slot, steps, name, content) == slot_after_actions(
        slot,
        s1,
        name,
        content,
    ).insert(name, content));
    assert(slot_after_actions(slot, steps, name, content) =~= map![name => content]);
}

/// Activating the same source twice is the same as activating it once:
/// after either, the slot holds exactly one file, equal to the source.
pub proof fn lemma_activation_idempotent(
    slot: Map<Seq<char>, Seq<char>>,
    first_exists: bool,
    first_is_dir: bool,
    second_exists: bool,
    second_is_dir: bool,
    name: Seq<char>,
    content: Seq<char>,
)
    requires
        first_exists || slot == Map::<Seq<char>, Seq<char>>::empty(),
        second_exists,
    ensures
        slot_after_actions(
            slot_after_actions(slot, activation_steps(first_exists, first_is_dir), name, content),
            activation_steps(second_exists, second_is_dir),
            name,
            content,
        ) == slot_after_actions(
            slot,
            activation_steps(first_exists, first_is_dir),
            name,
            content,
        ),
        slot_after_actions(
            slot,
            activation_steps(first_exists, first_is_dir),
            name,
            content,
        ).dom() == set![name],
        slot_after_actions(slot, activation_steps(first_exists, first_is_dir), name, content)[name]
            == content,
{
    lemma_activation_exact(slot, first_exists, first_is_dir, name, content);
    lemma_activation_exact(
        map![name => content],
        second_exists,
        second_is_dir,
        name,
        content,
    );
    assert(map![name => content].dom() =~= set![name]);
}

} // verus!
