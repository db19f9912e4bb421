//! The filesystem actions that put a planned archive in place, and what they
//! do to a model of the files on disk: a map from path to contents.
use crate::config::{is_separator, join_path, joined};
use crate::installer::{compiler_install_dir, hex_of, is_plain_component, prepare_install, sha256_of};
use crate::text::case_folded;
use crate::{Error, ManifestCompilerEntry, Settings};
use crate::installer::{
    entry_step, names_directory, planned_steps, step_is_guarded, stays_inside, zip_entries_of,
    zip_readable,
    ExtractStep, StepView,
};
use vstd::prelude::*;

verus! {

/// One change to the filesystem.
#[derive(Debug)]
pub enum FsAction {
    /// Delete `path` and everything under it, where it exists.
    RemoveTree { path: String },
    /// Create the directory `path` and its parents, with the permission bits given.
    CreateDir { path: String, mode: Option<u32> },
    /// Create `path` (and its parents) holding `contents`, with the permission bits given.
    WriteFile { path: String, contents: Vec<u8>, mode: Option<u32> },
}

/// An action in the model.
pub enum FsActionView {
    RemoveTree(Seq<char>),
    CreateDir(Seq<char>),
    WriteFile(Seq<char>, Seq<u8>),
}

impl View for FsAction {
    type V = FsActionView;

    open spec fn view(&self) -> FsActionView {
        match self {
            FsAction::RemoveTree { path } => FsActionView::RemoveTree(path@),
            FsAction::CreateDir { path, .. } => FsActionView::CreateDir(path@),
            FsAction::WriteFile { path, contents, .. } => FsActionView::WriteFile(path@, contents@),
        }
    }
}

/// Files on disk in the model: contents by path.
pub type FilesModel = Map<Seq<char>, Seq<u8>>;

/// `p` is `d` itself or lies below it.
pub open spec fn at_or_under(p: Seq<char>, d: Seq<char>) -> bool {
    p == d || (p.len() > d.len() && p.subrange(0, d.len() as int) == d && is_separator(
        p[d.len() as int],
    ))
}

pub open spec fn apply_action(fs: FilesModel, a: FsActionView) -> FilesModel {
    match a {
        FsActionView::RemoveTree(d) => fs.restrict(fs.dom().filter(|p: Seq<char>| !at_or_under(p, d))),
        FsActionView::CreateDir(_) => fs,
        FsActionView::WriteFile(p, c) => fs.insert(p, c),
    }
}

/// The files after carrying out `acts` in order.
pub open spec fn apply_actions(fs: FilesModel, acts: Seq<FsActionView>) -> FilesModel
    decreases acts.len(),
{
    if acts.len() == 0 {
        fs
    } else {
        apply_action(apply_actions(fs, acts.drop_last()), acts.last())
    }
}

/// The action that carries out `s` under `dir`.
pub open spec fn step_action(dir: Seq<char>, s: ExtractStep) -> FsActionView {
    match s {
        ExtractStep::Directory { relative, .. } => FsActionView::CreateDir(joined(dir, relative@)),
        ExtractStep::File { relative, contents, .. } => FsActionView::WriteFile(
            joined(dir, relative@),
            contents@,
        ),
    }
}

/// Clearing `dir`, creating it afresh, then carrying out each step under it.
pub open spec fn install_actions_model(dir: Seq<char>, steps: Seq<ExtractStep>) -> Seq<FsActionView>
    decreases steps.len(),
{
    if steps.len() == 0 {
        seq![FsActionView::RemoveTree(dir), FsActionView::CreateDir(dir)]
    } else {
        install_actions_model(dir, steps.drop_last()).push(step_action(dir, steps.last()))
    }
}

/// Where a step puts a file, if it is a file.
pub open spec fn file_target(dir: Seq<char>, s: ExtractStep) -> Option<Seq<char>> {
    match s {
        ExtractStep::File { relative, .. } => Some(joined(dir, relative@)),
        _ => None,
    }
}

/// The actions that install the planned `steps` into `install_dir`,
/// replacing whatever was there.
pub fn install_actions(install_dir: &str, steps: Vec<ExtractStep>) -> (r: Vec<FsAction>)
    ensures
        r@.map_values(|a: FsAction| a@) == install_actions_model(install_dir@, steps@),
{
    let ghost all = steps@;
    let mut acts: Vec<FsAction> = Vec::new();
    acts.push(FsAction::RemoveTree { path: String::from_str(install_dir) });
    acts.push(FsAction::CreateDir { path: String::from_str(install_dir), mode: None });
    let mut rest = steps;
    let total = rest.len();
    let mut done: usize = 0;
    proof {
        assert(all.subrange(0, 0) =~= Seq::<ExtractStep>::empty());
        assert(acts@.map_values(|a: FsAction| a@) =~= install_actions_model(install_dir@, Seq::<ExtractStep>::empty()));
    }
    while rest.len() > 0
        invariant
            done <= total == all.len(),
            rest@ == all.subrange(done as int, all.len() as int),
            acts@.map_values(|a: FsAction| a@) == install_actions_model(install_dir@, all.subrange(0, done as int)),
        decreases rest@.len(),
    {
        let step = rest.remove(0);
        let ghost before = acts@;
        let a = match step {
            ExtractStep::Directory { relative, mode } => FsAction::CreateDir {
                path: join_path(install_dir, relative.as_str()),
                mode,
            },
            ExtractStep::File { relative, contents, mode } => FsAction::WriteFile {
                path: join_path(install_dir, relative.as_str()),
                contents,
                mode,
            },
        };
        acts.push(a);
        proof {
            let prefix = all.subrange(0, done + 1);
            assert(prefix.drop_last() =~= all.subrange(0, done as int));
            assert(prefix.last() == step);
            assert(acts@.map_values(|x: FsAction| x@) =~= before.map_values(|x: FsAction| x@).push(a@));
        }
        done = done + 1;
        assert(rest@ =~= all.subrange(done as int, all.len() as int));
    }
    assert(all.subrange(0, done as int) =~= all);
    acts
}

/// The model of a list of actions.
pub open spec fn actions_view(acts: Seq<FsAction>) -> Seq<FsActionView> {
    acts.map_values(|a: FsAction| a@)
}

/// `acts` install the archive `archive` into `dir`: clear it, create it, and
/// unpack each entry whose name stays inside.
pub open spec fn installs_archive(acts: Seq<FsActionView>, dir: Seq<char>, archive: Seq<u8>) -> bool {
    exists|steps: Seq<ExtractStep>|
        #[trigger] install_actions_model(dir, steps) == acts && steps.map_values(
            |s: ExtractStep| s.model(),
        ) == planned_steps(zip_entries_of(archive))
}

/// Everything that installing `entry` as `compiler_id` from the downloaded
/// `archive_bytes` does to the disk, in order. The registry is only read. A
/// digest mismatch gives no action at all; otherwise the actions replace
/// the install directory with the archive's safe entries.
pub fn plan_install(
    settings: &Settings,
    compiler_id: &str,
    entry: &ManifestCompilerEntry,
    archive_bytes: Vec<u8>,
) -> (r: Result<Vec<FsAction>, Error>)
    ensures
        ({
            let actual = hex_of(sha256_of(archive_bytes@));
            match entry.sha256 {
                Some(e) if e@.len() > 0 && case_folded(e@) != actual => r matches Err(
                    Error::ChecksumMismatch { compiler_id: c, expected: x, actual: a },
                ) && c@ == compiler_id@ && x@ == e@ && a@ == actual,
                _ => match r {
                    Ok(acts) => is_plain_component(compiler_id@) && exists|dir: Seq<char>|
                        {
                            &&& dir.len() > 0
                            &&& !is_separator(dir.last())
                            &&& (settings.compiler_storage_path matches Some(root) ==> dir
                                == joined(root@, compiler_id@))
                            &&& #[trigger] installs_archive(actions_view(acts@), dir, archive_bytes@)
                        },
                    Err(e) => (e is Zip && !zip_readable(archive_bytes@)) || (e is InvalidCompilerSource
                        && !is_plain_component(compiler_id@)) || (e is DirectoryResolutionFailed
                        && settings.compiler_storage_path is None),
                },
            }
        }),
{
    let ghost bytes = archive_bytes@;
    let steps = prepare_install(compiler_id, entry, archive_bytes)?;
    let ghost sv = steps@;
    let dir = compiler_install_dir(settings, compiler_id)?;
    let acts = install_actions(dir.as_str(), steps);
    assert(install_actions_model(dir@, sv) == actions_view(acts@));
    assert(sv.map_values(|s: ExtractStep| s.model()) == planned_steps(zip_entries_of(bytes)));
    assert(installs_archive(actions_view(acts@), dir@, bytes));
    assert(settings.compiler_storage_path matches Some(root) ==> dir@ == joined(root@, compiler_id@));
    let r: Result<Vec<FsAction>, Error> = Ok(acts);
    proof {
        assert(r matches Ok(a) && a == acts);
        assert(exists|d: Seq<char>|
            {
                &&& d.len() > 0
                &&& !is_separator(d.last())
                &&& (settings.compiler_storage_path matches Some(root) ==> d == joined(root@, compiler_id@))
                &&& #[trigger] installs_archive(actions_view(acts@), d, bytes)
            });
    }
    r
}

/// A path joined under a directory that does not end in a separator lies below it.
pub proof fn lemma_joined_below(dir: Seq<char>, rel: Seq<char>)
    requires
        dir.len() > 0,
        !is_separator(dir.last()),
    ensures
        joined(dir, rel) == dir + seq!['/'] + rel,
        at_or_under(joined(dir, rel), dir),
        joined(dir, rel) != dir,
{
    let q = dir + seq!['/'] + rel;
    assert(q.subrange(0, dir.len() as int) =~= dir);
    assert(q[dir.len() as int] == '/');
    assert(q.len() > dir.len());
}

/// Installing into `dir` leaves below it exactly the files that the planned
/// steps write, whatever was there before (a reinstall keeps nothing of the
/// earlier version), and changes nothing outside it.
pub proof fn lemma_install_replaces_tree(fs: FilesModel, dir: Seq<char>, steps: Seq<ExtractStep>)
    requires
        dir.len() > 0,
        !is_separator(dir.last()),
    ensures
        ({
            let after = apply_actions(fs, install_actions_model(dir, steps));
            &&& forall|p: Seq<char>|
                at_or_under(p, dir) ==> (#[trigger] after.contains_key(p) <==> exists|k: int|
                    0 <= k < steps.len() && #[trigger] file_target(dir, steps[k]) == Some(p))
            &&& forall|p: Seq<char>|
                !at_or_under(p, dir) ==> (#[trigger] after.contains_key(p) == fs.contains_key(p)
                    && (fs.contains_key(p) ==> after[p] == fs[p]))
        }),
    decreases steps.len(),
{
    let acts = install_actions_model(dir, steps);
    let after = apply_actions(fs, acts);
    if steps.len() == 0 {
        let r = FsActionView::RemoveTree(dir);
        let c = FsActionView::CreateDir(dir);
        assert(acts.drop_last() =~= seq![r]);
        assert(seq![r].drop_last() =~= Seq::<FsActionView>::empty());
        assert(apply_actions(fs, Seq::<FsActionView>::empty()) == fs);
        assert(seq![r].last() == r);
        assert(apply_actions(fs, seq![r]) == apply_action(fs, r));
        assert(after == apply_action(fs, r));
    } else {
        let prev = steps.drop_last();
        let x = steps.last();
        lemma_install_replaces_tree(fs, dir, prev);
        assert(acts.drop_last() =~= install_actions_model(dir, prev));
        let mid = apply_actions(fs, install_actions_model(dir, prev));
        assert(after == apply_action(mid, step_action(dir, x)));
        match x {
            ExtractStep::Directory { relative, .. } => {
                assert(after == mid);
                assert forall|p: Seq<char>| at_or_under(p, dir) implies (after.contains_key(p) <==> exists|k: int|
                    0 <= k < steps.len() && #[trigger] file_target(dir, steps[k]) == Some(p)) by {
                    if after.contains_key(p) {
                        let k = choose|k: int| 0 <= k < prev.len() && #[trigger] file_target(dir, prev[k]) == Some(p);
                        assert(steps[k] == prev[k]);
                    }
                    if exists|k: int| 0 <= k < steps.len() && #[trigger] file_target(dir, steps[k]) == Some(p) {
                        let k = choose|k: int| 0 <= k < steps.len() && #[trigger] file_target(dir, steps[k]) == Some(p);
                        assert(k < prev.len());
                        assert(steps[k] == prev[k]);
                    }
                }
            },
            ExtractStep::File { relative, contents, .. } => {
                let q = joined(dir, relative@);
                lemma_joined_below(dir, relative@);
                assert(after == mid.insert(q, contents@));
                assert forall|p: Seq<char>| at_or_under(p, dir) implies (after.contains_key(p) <==> exists|k: int|
                    0 <= k < steps.len() && #[trigger] file_target(dir, steps[k]) == Some(p)) by {
                    if p == q {
                        assert(file_target(dir, steps[steps.len() - 1]) == Some(p));
                    } else {
                        if mid.contains_key(p) {
                            let k = choose|k: int| 0 <= k < prev.len() && #[trigger] file_target(dir, prev[k]) == Some(p);
                            assert(steps[k] == prev[k]);
                        }
                        if exists|k: int| 0 <= k < steps.len() && #[trigger] file_target(dir, steps[k]) == Some(p) {
                            let k = choose|k: int| 0 <= k < steps.len() && #[trigger] file_target(dir, steps[k]) == Some(p);
                            assert(k < prev.len());
                            assert(steps[k] == prev[k]);
                        }
                    }
                }
            },
        }
    }
}

/// Every directory the installation creates and every file it writes is
/// the install directory joined with a name that stays inside it (no root,
/// drive or `..` component), so nothing is placed outside it.
pub proof fn lemma_install_stays_inside(dir: Seq<char>, steps: Seq<ExtractStep>)
    requires
        forall|k: int| 0 <= k < steps.len() ==> step_is_guarded(#[trigger] steps[k]),
    ensures
        forall|i: int|
            2 <= i < install_actions_model(dir, steps).len() ==> match #[trigger] install_actions_model(
                dir,
                steps,
            )[i] {
                FsActionView::CreateDir(p) => exists|rel: Seq<char>|
                    stays_inside(rel) && p == #[trigger] joined(dir, rel),
                FsActionView::WriteFile(p, _) => exists|rel: Seq<char>|
                    stays_inside(rel) && p == #[trigger] joined(dir, rel),
                FsActionView::RemoveTree(_) => false,
            },
    decreases steps.len(),
{
    if steps.len() > 0 {
        let prev = steps.drop_last();
        assert forall|k: int| 0 <= k < prev.len() implies step_is_guarded(#[trigger] prev[k]) by {
            assert(prev[k] == steps[k]);
        }
        lemma_install_stays_inside(dir, prev);
        let acts = install_actions_model(dir, steps);
        let last = steps.last();
        assert(step_is_guarded(steps[steps.len() - 1]));
        assert(stays_inside(last.relative_view()));
        assert forall|i: int| 2 <= i < acts.len() implies match #[trigger] acts[i] {
            FsActionView::CreateDir(p) => exists|rel: Seq<char>| stays_inside(rel) && p == #[trigger] joined(dir, rel),
            FsActionView::WriteFile(p, _) => exists|rel: Seq<char>| stays_inside(rel) && p == #[trigger] joined(dir, rel),
            FsActionView::RemoveTree(_) => false,
        } by {
            if i < acts.len() - 1 {
                assert(acts[i] == install_actions_model(dir, prev)[i]);
            } else {
                assert(acts[i] == step_action(dir, last));
                assert(joined(dir, last.relative_view()) == joined(dir, last.relative_view()));
            }
        }
    }
}

/// Where an archive entry's file lands under `dir`, if it is a file that is unpacked.
pub open spec fn entry_file_target(dir: Seq<char>, e: (Seq<char>, Option<u32>, Seq<u8>)) -> Option<
    Seq<char>,
> {
    if stays_inside(e.0) && !names_directory(e.0) {
        Some(joined(dir, e.0))
    } else {
        None
    }
}

/// The path an action removes, creates or writes.
pub open spec fn action_path(a: FsActionView) -> Seq<char> {
    match a {
        FsActionView::RemoveTree(p) => p,
        FsActionView::CreateDir(p) => p,
        FsActionView::WriteFile(p, _) => p,
    }
}

/// Every path that installing into `dir` removes, creates or writes, files
/// and directories alike, is `dir` itself or lies below it.
pub proof fn lemma_install_touches_only_dir(dir: Seq<char>, steps: Seq<ExtractStep>)
    requires
        dir.len() > 0,
        !is_separator(dir.last()),
    ensures
        forall|i: int|
            0 <= i < install_actions_model(dir, steps).len() ==> at_or_under(
                action_path(#[trigger] install_actions_model(dir, steps)[i]),
                dir,
            ),
    decreases steps.len(),
{
    let acts = install_actions_model(dir, steps);
    if steps.len() == 0 {
        assert forall|i: int| 0 <= i < acts.len() implies at_or_under(action_path(#[trigger] acts[i]), dir) by {
            assert(action_path(acts[i]) == dir);
        }
    } else {
        let prev = steps.drop_last();
        lemma_install_touches_only_dir(dir, prev);
        let last = steps.last();
        lemma_joined_below(dir, last.relative_view());
        assert forall|i: int| 0 <= i < acts.len() implies at_or_under(action_path(#[trigger] acts[i]), dir) by {
            if i < acts.len() - 1 {
                assert(acts[i] == install_actions_model(dir, prev)[i]);
            } else {
                assert(acts[i] == step_action(dir, last));
                assert(action_path(acts[i]) == joined(dir, last.relative_view()));
            }
        }
    }
}

/// Some planned step writes the file `p`.
pub open spec fn steps_write(dir: Seq<char>, steps: Seq<ExtractStep>, p: Seq<char>) -> bool {
    exists|k: int| 0 <= k < steps.len() && #[trigger] file_target(dir, steps[k]) == Some(p)
}

/// Some archive entry is unpacked as the file `p`.
pub open spec fn entries_write(
    dir: Seq<char>,
    entries: Seq<(Seq<char>, Option<u32>, Seq<u8>)>,
    p: Seq<char>,
) -> bool {
    exists|j: int| 0 <= j < entries.len() && #[trigger] entry_file_target(dir, entries[j]) == Some(p)
}

/// The files that the planned steps write are those of the archive's entries.
pub proof fn lemma_planned_files_are_entry_files(
    dir: Seq<char>,
    entries: Seq<(Seq<char>, Option<u32>, Seq<u8>)>,
    steps: Seq<ExtractStep>,
)
    requires
        steps.map_values(|s: ExtractStep| s.model()) == planned_steps(entries),
    ensures
        forall|p: Seq<char>| #[trigger] steps_write(dir, steps, p) <==> entries_write(dir, entries, p),
    decreases entries.len(),
{
    if entries.len() == 0 {
        assert(steps.map_values(|s: ExtractStep| s.model()).len() == 0);
    } else {
        let prev = entries.drop_last();
        let e = entries.last();
        let ms = steps.map_values(|s: ExtractStep| s.model());
        if stays_inside(e.0) {
            let sp = steps.drop_last();
            assert(ms.len() == planned_steps(prev).len() + 1);
            assert(planned_steps(entries) == planned_steps(prev).push(entry_step(e)));
            assert forall|k: int| 0 <= k < sp.len() implies (#[trigger] sp[k]).model()
                == planned_steps(prev)[k] by {
                assert(sp[k] == steps[k]);
                assert(ms[k] == steps[k].model());
                assert(ms[k] == planned_steps(entries)[k]);
            }
            assert(sp.map_values(|s: ExtractStep| s.model()) =~= planned_steps(prev));
            assert(ms[ms.len() - 1] == entry_step(e));
            let last = steps[steps.len() - 1];
            assert(last.model() == entry_step(e));
            lemma_planned_files_are_entry_files(dir, prev, sp);
            assert forall|p: Seq<char>| #[trigger] steps_write(dir, steps, p) <==> entries_write(dir, entries, p) by {
                if steps_write(dir, steps, p) {
                    let k = choose|k: int| 0 <= k < steps.len() && #[trigger] file_target(dir, steps[k]) == Some(p);
                    if k < sp.len() {
                        assert(file_target(dir, sp[k]) == Some(p));
                        assert(steps_write(dir, sp, p));
                        let j = choose|j: int| 0 <= j < prev.len() && #[trigger] entry_file_target(dir, prev[j]) == Some(p);
                        assert(entries[j] == prev[j]);
                    } else {
                        assert(entry_file_target(dir, entries[entries.len() - 1]) == Some(p));
                    }
                }
                if entries_write(dir, entries, p) {
                    let j = choose|j: int| 0 <= j < entries.len() && #[trigger] entry_file_target(dir, entries[j]) == Some(p);
                    if j < prev.len() {
                        assert(entry_file_target(dir, prev[j]) == Some(p));
                        assert(entries_write(dir, prev, p));
                        assert(steps_write(dir, sp, p));
                        let k = choose|k: int| 0 <= k < sp.len() && #[trigger] file_target(dir, sp[k]) == Some(p);
                        assert(steps[k] == sp[k]);
                    } else {
                        assert(file_target(dir, steps[steps.len() - 1]) == Some(p));
                    }
                }
            }
        } else {
            lemma_planned_files_are_entry_files(dir, prev, steps);
            assert forall|p: Seq<char>| #[trigger] steps_write(dir, steps, p) <==> entries_write(dir, entries, p) by {
                assert(steps_write(dir, steps, p) == entries_write(dir, prev, p));
                if entries_write(dir, entries, p) {
                    let j = choose|j: int| 0 <= j < entries.len() && #[trigger] entry_file_target(dir, entries[j]) == Some(p);
                    assert(j < prev.len());
                    assert(entry_file_target(dir, prev[j]) == Some(p));
                }
                if entries_write(dir, prev, p) {
                    let j = choose|j: int| 0 <= j < prev.len() && #[trigger] entry_file_target(dir, prev[j]) == Some(p);
                    assert(entries[j] == prev[j]);
                }
            }
        }
    }
}

/// Reinstalling from an archive leaves below the install directory exactly
/// the archive's files whose names stay inside (each at `dir/name`),
/// whatever the earlier version had there, and changes nothing outside it.
pub proof fn lemma_reinstall_holds_archive_files(
    fs: FilesModel,
    dir: Seq<char>,
    archive: Seq<u8>,
    steps: Seq<ExtractStep>,
)
    requires
        dir.len() > 0,
        !is_separator(dir.last()),
        steps.map_values(|s: ExtractStep| s.model()) == planned_steps(zip_entries_of(archive)),
    ensures
        ({
            let after = apply_actions(fs, install_actions_model(dir, steps));
            &&& forall|p: Seq<char>|
                at_or_under(p, dir) ==> (#[trigger] after.contains_key(p) <==> entries_write(
                    dir,
                    zip_entries_of(archive),
                    p,
                ))
            &&& forall|p: Seq<char>|
                !at_or_under(p, dir) ==> (#[trigger] after.contains_key(p) == fs.contains_key(p)
                    && (fs.contains_key(p) ==> after[p] == fs[p]))
        }),
{
    lemma_install_replaces_tree(fs, dir, steps);
    lemma_planned_files_are_entry_files(dir, zip_entries_of(archive), steps);
    let after = apply_actions(fs, install_actions_model(dir, steps));
    assert forall|p: Seq<char>| at_or_under(p, dir) implies (#[trigger] after.contains_key(p) <==> entries_write(
        dir,
        zip_entries_of(archive),
        p,
    )) by {
        assert(steps_write(dir, steps, p) <==> entries_write(dir, zip_entries_of(archive), p));
    }
}

/// The bytes a step writes (none for a directory).
pub open spec fn step_contents(s: ExtractStep) -> Seq<u8> {
    match s {
        ExtractStep::File { contents, .. } => contents@,
        _ => seq![],
    }
}

/// Some planned step writes `c` to the file `p`.
pub open spec fn step_writes_bytes(dir: Seq<char>, steps: Seq<ExtractStep>, p: Seq<char>, c: Seq<u8>) -> bool {
    exists|k: int|
        0 <= k < steps.len() && #[trigger] file_target(dir, steps[k]) == Some(p) && step_contents(
            steps[k],
        ) == c
}

/// Some archive entry is unpacked as the file `p` holding `c`.
pub open spec fn entry_writes_bytes(
    dir: Seq<char>,
    entries: Seq<(Seq<char>, Option<u32>, Seq<u8>)>,
    p: Seq<char>,
    c: Seq<u8>,
) -> bool {
    exists|j: int|
        0 <= j < entries.len() && #[trigger] entry_file_target(dir, entries[j]) == Some(p)
            && entries[j].2 == c
}

/// Each file that installing into `dir` leaves below it holds the bytes that
/// some planned step writes to it.
pub proof fn lemma_install_file_contents(fs: FilesModel, dir: Seq<char>, steps: Seq<ExtractStep>)
    requires
        dir.len() > 0,
        !is_separator(dir.last()),
    ensures
        ({
            let after = apply_actions(fs, install_actions_model(dir, steps));
            forall|p: Seq<char>|
                at_or_under(p, dir) && #[trigger] after.contains_key(p) ==> step_writes_bytes(
                    dir,
                    steps,
                    p,
                    after[p],
                )
        }),
    decreases steps.len(),
{
    let acts = install_actions_model(dir, steps);
    let after = apply_actions(fs, acts);
    lemma_install_replaces_tree(fs, dir, steps);
    if steps.len() > 0 {
        let prev = steps.drop_last();
        let x = steps.last();
        lemma_install_file_contents(fs, dir, prev);
        assert(acts.drop_last() =~= install_actions_model(dir, prev));
        let mid = apply_actions(fs, install_actions_model(dir, prev));
        assert(after == apply_action(mid, step_action(dir, x)));
        assert forall|p: Seq<char>| at_or_under(p, dir) && #[trigger] after.contains_key(p) implies step_writes_bytes(
            dir,
            steps,
            p,
            after[p],
        ) by {
            let last_k = steps.len() - 1;
            if file_target(dir, x) == Some(p) {
                assert(after[p] == step_contents(x));
                assert(file_target(dir, steps[last_k]) == Some(p));
            } else {
                assert(mid.contains_key(p));
                assert(after[p] == mid[p]);
                assert(step_writes_bytes(dir, prev, p, mid[p]));
                let k = choose|k: int|
                    0 <= k < prev.len() && #[trigger] file_target(dir, prev[k]) == Some(p)
                        && step_contents(prev[k]) == mid[p];
                assert(steps[k] == prev[k]);
            }
        }
    }
}

/// The bytes that the planned steps write are those of the archive's entries.
pub proof fn lemma_planned_bytes_are_entry_bytes(
    dir: Seq<char>,
    entries: Seq<(Seq<char>, Option<u32>, Seq<u8>)>,
    steps: Seq<ExtractStep>,
)
    requires
        steps.map_values(|s: ExtractStep| s.model()) == planned_steps(entries),
    ensures
        forall|p: Seq<char>, c: Seq<u8>|
            #[trigger] step_writes_bytes(dir, steps, p, c) ==> entry_writes_bytes(dir, entries, p, c),
    decreases entries.len(),
{
    if entries.len() == 0 {
        assert(steps.map_values(|s: ExtractStep| s.model()).len() == 0);
    } else {
        let prev = entries.drop_last();
        let e = entries.last();
        let ms = steps.map_values(|s: ExtractStep| s.model());
        if stays_inside(e.0) {
            let sp = steps.drop_last();
            assert(planned_steps(entries) == planned_steps(prev).push(entry_step(e)));
            assert forall|k: int| 0 <= k < sp.len() implies (#[trigger] sp[k]).model()
                == planned_steps(prev)[k] by {
                assert(sp[k] == steps[k]);
                assert(ms[k] == steps[k].model());
                assert(ms[k] == planned_steps(entries)[k]);
            }
            assert(sp.map_values(|s: ExtractStep| s.model()) =~= planned_steps(prev));
            assert(ms[ms.len() - 1] == entry_step(e));
            let last = steps[steps.len() - 1];
            assert(last.model() == entry_step(e));
            lemma_planned_bytes_are_entry_bytes(dir, prev, sp);
            assert forall|p: Seq<char>, c: Seq<u8>| #[trigger] step_writes_bytes(dir, steps, p, c) implies entry_writes_bytes(
                dir,
                entries,
                p,
                c,
            ) by {
                let k = choose|k: int|
                    0 <= k < steps.len() && #[trigger] file_target(dir, steps[k]) == Some(p)
                        && step_contents(steps[k]) == c;
                if k < sp.len() {
                    assert(sp[k] == steps[k]);
                    assert(step_writes_bytes(dir, sp, p, c));
                    let j = choose|j: int|
                        0 <= j < prev.len() && #[trigger] entry_file_target(dir, prev[j]) == Some(p)
                            && prev[j].2 == c;
                    assert(entries[j] == prev[j]);
                } else {
                    assert(entry_file_target(dir, entries[entries.len() - 1]) == Some(p));
                }
            }
        } else {
            lemma_planned_bytes_are_entry_bytes(dir, prev, steps);
            assert forall|p: Seq<char>, c: Seq<u8>| #[trigger] step_writes_bytes(dir, steps, p, c) implies entry_writes_bytes(
                dir,
                entries,
                p,
                c,
            ) by {
                assert(entry_writes_bytes(dir, prev, p, c));
                let j = choose|j: int|
                    0 <= j < prev.len() && #[trigger] entry_file_target(dir, prev[j]) == Some(p)
                        && prev[j].2 == c;
                assert(entries[j] == prev[j]);
            }
        }
    }
}

/// After a reinstall from an archive, each file below the install directory
/// holds the bytes of an archive entry unpacked under that name.
pub proof fn lemma_reinstall_file_bytes(
    fs: FilesModel,
    dir: Seq<char>,
    archive: Seq<u8>,
    steps: Seq<ExtractStep>,
)
    requires
        dir.len() > 0,
        !is_separator(dir.last()),
        steps.map_values(|s: ExtractStep| s.model()) == planned_steps(zip_entries_of(archive)),
    ensures
        ({
            let after = apply_actions(fs, install_actions_model(dir, steps));
            forall|p: Seq<char>|
                at_or_under(p, dir) && #[trigger] after.contains_key(p) ==> entry_writes_bytes(
                    dir,
                    zip_entries_of(archive),
                    p,
                    after[p],
                )
        }),
{
    lemma_install_file_contents(fs, dir, steps);
    lemma_planned_bytes_are_entry_bytes(dir, zip_entries_of(archive), steps);
}

} // verus!