//! What carrying out a plan does to the files of a machine.
//!
//! A machine is taken as its files, contents by path, and the set of its
//! directories. Paths are taken as they are written: two texts are two places.
//! On this model the laws of a workspace are stated: a plan changes no file
//! outside the workspace, what an earlier run has left does not show in the
//! workspace, and making the workspace once more changes nothing.

use crate::path::{is_absolute, is_component, joined, separator};
use crate::task::{source_file, TaskDefinitionView};
use crate::workspace::{
    copy_step, descriptor, descriptor_path_of, lemma_invalid_name, names_of, planned,
    planned_steps, sources_dir_of, target_path, workspace_dir_of, StepView,
};
use vstd::prelude::*;

verus! {

/// The files and the directories of a machine.
pub struct Disk {
    /// The contents of each file, by its path.
    pub files: Map<Seq<char>, Seq<char>>,
    /// The paths of the directories.
    pub dirs: Set<Seq<char>>,
}

/// Every one of `names` is a single component of a path.
pub open spec fn all_components(names: Seq<Seq<char>>) -> bool {
    forall|i: int| 0 <= i < names.len() ==> is_component(#[trigger] names[i])
}

/// The path that is reached from `dir` by going down through `names`, one
/// after the other.
pub open spec fn descend(dir: Seq<char>, names: Seq<Seq<char>>) -> Seq<char>
    decreases names.len(),
{
    if names.len() == 0 {
        dir
    } else {
        joined(descend(dir, names.drop_last()), names.last())
    }
}

/// `path` is the directory `dir` or lies below it: it is reached from `dir` by
/// going down through names, never up and never through `.` or `..`.
pub open spec fn within(dir: Seq<char>, path: Seq<char>) -> bool {
    exists|names: Seq<Seq<char>>| all_components(names) && #[trigger] descend(dir, names) == path
}

/// `path` lies in the directory `dir` itself, not further down.
pub open spec fn lies_in(dir: Seq<char>, path: Seq<char>) -> bool {
    exists|name: Seq<char>| is_component(name) && #[trigger] joined(dir, name) == path
}

/// One of the directories `dirs` is the one in which `path` lies.
pub open spec fn has_place(dirs: Set<Seq<char>>, path: Seq<char>) -> bool {
    exists|dir: Seq<char>| dirs.contains(dir) && #[trigger] lies_in(dir, path)
}

/// The files that do not lie within `dir`.
pub open spec fn outside(files: Map<Seq<char>, Seq<char>>, dir: Seq<char>) -> Map<
    Seq<char>,
    Seq<char>,
> {
    files.remove_keys(Set::new(|path: Seq<char>| within(dir, path)))
}

/// The directories that do not lie within `dir`.
pub open spec fn dirs_outside(dirs: Set<Seq<char>>, dir: Seq<char>) -> Set<Seq<char>> {
    Set::new(|path: Seq<char>| dirs.contains(path) && !within(dir, path))
}

/// The directory `dir` and every directory above it.
pub open spec fn upwards(dir: Seq<char>) -> Set<Seq<char>> {
    Set::new(|path: Seq<char>| within(path, dir))
}

/// What one step does to a machine; `None` where the step fails.
///
/// Removing a directory takes away every file and directory within it.
/// Making a directory makes those above it too. A file can be copied only
/// where it exists, and a file can be put only into a directory that exists;
/// a copy or a write replaces what lay at its target. Other failures, such as
/// a file that stands where a directory is to be made, are not held.
pub open spec fn effect(step: StepView, disk: Disk) -> Option<Disk> {
    match step {
        StepView::RemoveTree(dir) => Some(
            Disk { files: outside(disk.files, dir), dirs: dirs_outside(disk.dirs, dir) },
        ),
        StepView::CreateDir(dir) => Some(
            Disk { files: disk.files, dirs: disk.dirs.union(upwards(dir)) },
        ),
        StepView::CopyFile { from, to } => if disk.files.dom().contains(from) && has_place(
            disk.dirs,
            to,
        ) {
            Some(Disk { files: disk.files.insert(to, disk.files[from]), dirs: disk.dirs })
        } else {
            None
        },
        StepView::WriteFile { path, contents } => if has_place(disk.dirs, path) {
            Some(Disk { files: disk.files.insert(path, contents), dirs: disk.dirs })
        } else {
            None
        },
    }
}

/// What the steps do to a machine when they are carried out in order; `None`
/// where one of them fails.
pub open spec fn carried_out(steps: Seq<StepView>, disk: Disk) -> Option<Disk>
    decreases steps.len(),
{
    if steps.len() == 0 {
        Some(disk)
    } else {
        match effect(steps[0], disk) {
            Some(next) => carried_out(steps.drop_first(), next),
            None => None,
        }
    }
}

/// The step changes no file that lies outside `dir`.
pub open spec fn stays_within(step: StepView, dir: Seq<char>) -> bool {
    match step {
        StepView::RemoveTree(removed) => removed == dir,
        StepView::CreateDir(_) => true,
        StepView::CopyFile { from, to } => within(dir, to),
        StepView::WriteFile { path, contents } => within(dir, path),
    }
}

/// The step writes to `path`.
pub open spec fn writes_to(step: StepView, path: Seq<char>) -> bool {
    match step {
        StepView::CopyFile { from, to } => to == path,
        StepView::WriteFile { path: target, contents } => target == path,
        _ => false,
    }
}

/// The paths that the steps write to.
pub open spec fn written(steps: Seq<StepView>) -> Set<Seq<char>> {
    Set::new(
        |path: Seq<char>| exists|i: int| 0 <= i < steps.len() && writes_to(#[trigger] steps[i], path),
    )
}

/// The step neither writes to `path` nor removes it.
pub open spec fn leaves(step: StepView, path: Seq<char>) -> bool {
    match step {
        StepView::RemoveTree(dir) => !within(dir, path),
        _ => !writes_to(step, path),
    }
}

/// The step makes and removes no directory.
pub open spec fn keeps_dirs(step: StepView) -> bool {
    step is CopyFile || step is WriteFile
}

/// The place of the source of the task `name` in the workspace under
/// `root_dir`.
pub open spec fn source_in_workspace(root_dir: Seq<char>, name: Seq<char>) -> Seq<char> {
    joined(sources_dir_of(workspace_dir_of(root_dir)), source_file(name))
}

/// A directory lies within itself, and what lies in it lies within it.
pub proof fn lemma_within_itself(dir: Seq<char>, name: Seq<char>)
    ensures
        within(dir, dir),
        is_component(name) ==> within(dir, joined(dir, name)) && lies_in(dir, joined(dir, name)),
{
    let none = Seq::<Seq<char>>::empty();
    assert(all_components(none));
    assert(descend(dir, none) == dir);
    if is_component(name) {
        let one = seq![name];
        assert(one.drop_last() =~= none);
        assert(one.last() == name);
        assert(all_components(one));
        assert(descend(dir, one) == joined(dir, name));
    }
}

/// What lies in a directory that lies in `dir` lies within `dir`.
pub proof fn lemma_within_two_down(dir: Seq<char>, sub: Seq<char>, name: Seq<char>)
    requires
        is_component(sub),
        is_component(name),
    ensures
        within(dir, joined(joined(dir, sub), name)),
{
    lemma_within_itself(dir, sub);
    let one = seq![sub];
    let two = seq![sub, name];
    assert(one.drop_last() =~= Seq::<Seq<char>>::empty());
    assert(one.last() == sub);
    assert(descend(dir, Seq::<Seq<char>>::empty()) == dir);
    assert(descend(dir, one) == joined(dir, sub));
    assert(two.drop_last() =~= one);
    assert(two.last() == name);
    assert(all_components(two));
    assert(descend(dir, two) == joined(joined(dir, sub), name));
}

/// The source file of a task whose name is a component is a component.
pub proof fn lemma_source_file_is_component(name: Seq<char>)
    requires
        is_component(name),
    ensures
        is_component(source_file(name)),
        !is_absolute(source_file(name)),
{
    reveal_strlit(".rs");
    let file = source_file(name);
    assert(file.len() == name.len() + 3);
    assert forall|i: int| 0 <= i < file.len() implies file[i] != separator() by {
        if i < name.len() {
            assert(file[i] == name[i]);
        } else {
            assert(file[i] == ".rs"@[i - name.len()]);
        }
    }
    assert(file[0] == name[0]);
}

/// The workspace and its directory of sources are not empty and do not end
/// in a separator; the sources lie in the workspace, under the name `src`.
pub proof fn lemma_sources_dir(root_dir: Seq<char>)
    ensures
        workspace_dir_of(root_dir).len() > 0,
        workspace_dir_of(root_dir).last() != separator(),
        sources_dir_of(workspace_dir_of(root_dir)) == workspace_dir_of(root_dir) + seq![
            separator(),
        ] + "src"@,
        sources_dir_of(workspace_dir_of(root_dir)).last() != separator(),
        is_component("src"@),
        is_component("Cargo.toml"@),
{
    reveal_strlit("ws");
    reveal_strlit("src");
    reveal_strlit("Cargo.toml");
    let ws = workspace_dir_of(root_dir);
    if root_dir.len() == 0 {
    } else if root_dir.last() == separator() {
        assert(ws =~= root_dir + "ws"@);
    } else {
        assert(ws =~= root_dir + seq![separator()] + "ws"@);
    }
    assert(ws.last() == 's');
    let file = "Cargo.toml"@;
    assert forall|i: int| 0 <= i < file.len() implies file[i] != separator() by {
        assert(file.len() == 10);
        assert(file[0] == 'C' && file[1] == 'a' && file[2] == 'r' && file[3] == 'g' && file[4]
            == 'o');
        assert(file[5] == '.' && file[6] == 't' && file[7] == 'o' && file[8] == 'm' && file[9]
            == 'l');
    }
}

/// The build target of a task points at the copy of the task's source: the
/// path that the descriptor names, seen from the workspace, is the place to
/// which the plan copies the source.
pub proof fn lemma_target_points_at_copy(root_dir: Seq<char>, name: Seq<char>)
    requires
        is_component(name),
    ensures
        joined(workspace_dir_of(root_dir), target_path(name)) == source_in_workspace(
            root_dir,
            name,
        ),
        within(workspace_dir_of(root_dir), source_in_workspace(root_dir, name)),
{
    let ws = workspace_dir_of(root_dir);
    let file = source_file(name);
    lemma_sources_dir(root_dir);
    lemma_source_file_is_component(name);
    reveal_strlit("src/");
    reveal_strlit("src");
    let path = target_path(name);
    assert(path[0] == 's');
    assert(joined(ws, path) =~= ws + seq![separator()] + path);
    assert(source_in_workspace(root_dir, name) =~= ws + seq![separator()] + "src"@ + seq![
        separator(),
    ] + file);
    assert("src/"@ =~= "src"@ + seq![separator()]);
    assert(joined(ws, path) =~= source_in_workspace(root_dir, name));
    lemma_within_two_down(ws, "src"@, file);
}

/// Carrying out steps is carrying out the first `k` of them and then the
/// others.
pub proof fn lemma_carried_out_in_two(steps: Seq<StepView>, disk: Disk, k: int)
    requires
        0 <= k <= steps.len(),
    ensures
        carried_out(steps, disk) == match carried_out(steps.take(k), disk) {
            Some(between) => carried_out(steps.skip(k), between),
            None => None,
        },
    decreases k,
{
    if k == 0 {
        assert(steps.skip(0) =~= steps);
    } else {
        let head = steps.take(k);
        assert(head[0] == steps[0]);
        assert(head.drop_first() =~= steps.drop_first().take(k - 1));
        assert(steps.drop_first().skip(k - 1) =~= steps.skip(k));
        if let Some(next) = effect(steps[0], disk) {
            lemma_carried_out_in_two(steps.drop_first(), next, k - 1);
        }
    }
}

/// Steps that stay within a directory leave every file outside it as it was.
pub proof fn lemma_outside_is_kept(steps: Seq<StepView>, dir: Seq<char>, disk: Disk)
    requires
        forall|i: int| 0 <= i < steps.len() ==> stays_within(#[trigger] steps[i], dir),
        carried_out(steps, disk) is Some,
    ensures
        outside(carried_out(steps, disk)->0.files, dir) == outside(disk.files, dir),
    decreases steps.len(),
{
    if steps.len() > 0 {
        let next = effect(steps[0], disk)->0;
        let rest = steps.drop_first();
        assert(stays_within(steps[0], dir));
        assert forall|i: int| 0 <= i < rest.len() implies stays_within(#[trigger] rest[i], dir) by {
            assert(rest[i] == steps[i + 1]);
        }
        lemma_outside_is_kept(rest, dir, next);
        assert(outside(next.files, dir) =~= outside(disk.files, dir));
    }
}

/// Copies and writes leave the directories as they are.
pub proof fn lemma_dirs_are_kept(steps: Seq<StepView>, disk: Disk)
    requires
        forall|i: int| 0 <= i < steps.len() ==> keeps_dirs(#[trigger] steps[i]),
        carried_out(steps, disk) is Some,
    ensures
        carried_out(steps, disk)->0.dirs == disk.dirs,
    decreases steps.len(),
{
    if steps.len() > 0 {
        let next = effect(steps[0], disk)->0;
        let rest = steps.drop_first();
        assert(keeps_dirs(steps[0]));
        assert forall|i: int| 0 <= i < rest.len() implies keeps_dirs(#[trigger] rest[i]) by {
            assert(rest[i] == steps[i + 1]);
        }
        lemma_dirs_are_kept(rest, next);
    }
}

/// A file that every step leaves alone is at the end what it was at the start.
pub proof fn lemma_left_alone(steps: Seq<StepView>, disk: Disk, path: Seq<char>)
    requires
        forall|i: int| 0 <= i < steps.len() ==> leaves(#[trigger] steps[i], path),
        carried_out(steps, disk) is Some,
    ensures
        carried_out(steps, disk)->0.files.dom().contains(path) == disk.files.dom().contains(path),
        disk.files.dom().contains(path) ==> carried_out(steps, disk)->0.files[path]
            == disk.files[path],
    decreases steps.len(),
{
    if steps.len() > 0 {
        let next = effect(steps[0], disk)->0;
        let rest = steps.drop_first();
        assert(leaves(steps[0], path));
        assert forall|i: int| 0 <= i < rest.len() implies leaves(#[trigger] rest[i], path) by {
            assert(rest[i] == steps[i + 1]);
        }
        lemma_left_alone(rest, next, path);
    }
}

/// Steps that remove nothing add the paths they write to, and no other.
pub proof fn lemma_written_is_added(steps: Seq<StepView>, disk: Disk)
    requires
        forall|i: int| 0 <= i < steps.len() ==> !(#[trigger] steps[i] is RemoveTree),
        carried_out(steps, disk) is Some,
    ensures
        carried_out(steps, disk)->0.files.dom() == disk.files.dom().union(written(steps)),
    decreases steps.len(),
{
    let after = carried_out(steps, disk)->0;
    if steps.len() == 0 {
        assert(after.files.dom() =~= disk.files.dom().union(written(steps)));
    } else {
        let next = effect(steps[0], disk)->0;
        let rest = steps.drop_first();
        assert(!(steps[0] is RemoveTree));
        assert forall|i: int| 0 <= i < rest.len() implies !(#[trigger] rest[i] is RemoveTree) by {
            assert(rest[i] == steps[i + 1]);
        }
        lemma_written_is_added(rest, next);
        assert forall|path: Seq<char>| after.files.dom().contains(path) == (
        disk.files.dom().contains(path) || written(steps).contains(path)) by {
            if written(rest).contains(path) {
                let i = choose|i: int| 0 <= i < rest.len() && writes_to(#[trigger] rest[i], path);
                assert(steps[i + 1] == rest[i]);
            }
            if written(steps).contains(path) {
                let i = choose|i: int| 0 <= i < steps.len() && writes_to(#[trigger] steps[i], path);
                if i > 0 {
                    assert(rest[i - 1] == steps[i]);
                }
            }
            if writes_to(steps[0], path) {
                assert(written(steps).contains(path));
            }
        }
        assert(after.files.dom() =~= disk.files.dom().union(written(steps)));
    }
}

/// What the last step writes stands in its file at the end.
pub proof fn lemma_last_write_stands(steps: Seq<StepView>, disk: Disk)
    requires
        steps.len() > 0,
        steps.last() is WriteFile,
        carried_out(steps, disk) is Some,
    ensures
        carried_out(steps, disk)->0.files.dom().contains(steps.last()->WriteFile_path),
        carried_out(steps, disk)->0.files[steps.last()->WriteFile_path]
            == steps.last()->WriteFile_contents,
    decreases steps.len(),
{
    if steps.len() > 1 {
        let next = effect(steps[0], disk)->0;
        let rest = steps.drop_first();
        assert(rest.last() == steps.last());
        lemma_last_write_stands(rest, next);
    } else {
        reveal_with_fuel(carried_out, 2);
        assert(steps[0] == steps.last());
        assert(steps.drop_first().len() == 0);
    }
}

/// Every step of a plan for tasks whose names are components stays within
/// the workspace, and the steps after the third make and remove no directory.
pub proof fn lemma_plan_stays_within(
    root_dir: Seq<char>,
    project_dir: Seq<char>,
    tasks: Seq<TaskDefinitionView>,
    deps: Option<Seq<(Seq<char>, Seq<char>)>>,
)
    requires
        all_components(names_of(tasks)),
    ensures
        forall|i: int|
            0 <= i < planned_steps(root_dir, project_dir, tasks, deps).len() ==> stays_within(
                #[trigger] planned_steps(root_dir, project_dir, tasks, deps)[i],
                workspace_dir_of(root_dir),
            ),
        forall|i: int|
            3 <= i < planned_steps(root_dir, project_dir, tasks, deps).len() ==> keeps_dirs(
                #[trigger] planned_steps(root_dir, project_dir, tasks, deps)[i],
            ),
{
    let plan = planned_steps(root_dir, project_dir, tasks, deps);
    let ws = workspace_dir_of(root_dir);
    let src = sources_dir_of(ws);
    lemma_sources_dir(root_dir);
    assert forall|i: int| 0 <= i < plan.len() implies stays_within(#[trigger] plan[i], ws) && (3
        <= i ==> keeps_dirs(plan[i])) by {
        if 3 <= i < 3 + tasks.len() {
            let task = tasks[i - 3];
            assert(plan[i] == copy_step(project_dir, src, task));
            assert(is_component(names_of(tasks)[i - 3]));
            lemma_source_file_is_component(task.name);
            lemma_within_two_down(ws, "src"@, source_file(task.name));
        } else if i == 3 + tasks.len() {
            assert(plan[i] == (StepView::WriteFile {
                path: descriptor_path_of(ws),
                contents: descriptor(names_of(tasks), deps),
            }));
            lemma_within_itself(ws, "Cargo.toml"@);
        }
    }
}

/// Where there is a plan, the name of every task is a component.
pub proof fn lemma_planned_names(
    root_dir: Seq<char>,
    project_dir: Seq<char>,
    tasks: Seq<TaskDefinitionView>,
    deps: Option<Seq<(Seq<char>, Seq<char>)>>,
)
    ensures
        planned(root_dir, project_dir, tasks, deps) is Ok <==> all_components(names_of(tasks)),
        planned(root_dir, project_dir, tasks, deps) matches Ok(plan) ==> plan == planned_steps(
            root_dir,
            project_dir,
            tasks,
            deps,
        ),
{
    lemma_invalid_name(names_of(tasks));
}

/// A plan changes the workspace and nothing else. However far a plan is
/// carried out, to its end or to the step before the one that fails, every
/// file outside the workspace is what it was before.
pub proof fn lemma_only_the_workspace_differs(
    root_dir: Seq<char>,
    project_dir: Seq<char>,
    tasks: Seq<TaskDefinitionView>,
    deps: Option<Seq<(Seq<char>, Seq<char>)>>,
    disk: Disk,
    k: int,
)
    ensures
        planned(root_dir, project_dir, tasks, deps) matches Ok(plan) ==> (0 <= k <= plan.len()
            ==> (carried_out(plan.take(k), disk) matches Some(reached) ==> outside(
            reached.files,
            workspace_dir_of(root_dir),
        ) == outside(disk.files, workspace_dir_of(root_dir)))),
{
    lemma_planned_names(root_dir, project_dir, tasks, deps);
    if let Ok(plan) = planned(root_dir, project_dir, tasks, deps) {
        if 0 <= k <= plan.len() && carried_out(plan.take(k), disk) is Some {
            lemma_plan_stays_within(root_dir, project_dir, tasks, deps);
            let done = plan.take(k);
            assert forall|i: int| 0 <= i < done.len() implies stays_within(
                #[trigger] done[i],
                workspace_dir_of(root_dir),
            ) by {
                assert(done[i] == plan[i]);
            }
            lemma_outside_is_kept(done, workspace_dir_of(root_dir), disk);
        }
    }
}

/// A directory that has been removed holds nothing, whatever it held before:
/// where two machines are the same outside `dir`, removing `dir` leaves them
/// the same.
pub proof fn lemma_removal_forgets(dir: Seq<char>, first: Disk, second: Disk)
    requires
        outside(first.files, dir) == outside(second.files, dir),
        dirs_outside(first.dirs, dir) == dirs_outside(second.dirs, dir),
    ensures
        effect(StepView::RemoveTree(dir), first) == effect(StepView::RemoveTree(dir), second),
{
}

/// A workspace does not remember. Where two machines are the same outside the
/// workspace, carrying out a plan leaves them the same, or fails on both:
/// what an earlier run has left in the workspace makes no difference.
pub proof fn lemma_workspace_forgets(
    root_dir: Seq<char>,
    project_dir: Seq<char>,
    tasks: Seq<TaskDefinitionView>,
    deps: Option<Seq<(Seq<char>, Seq<char>)>>,
    first: Disk,
    second: Disk,
)
    requires
        outside(first.files, workspace_dir_of(root_dir)) == outside(
            second.files,
            workspace_dir_of(root_dir),
        ),
        dirs_outside(first.dirs, workspace_dir_of(root_dir)) == dirs_outside(
            second.dirs,
            workspace_dir_of(root_dir),
        ),
    ensures
        carried_out(planned_steps(root_dir, project_dir, tasks, deps), first) == carried_out(
            planned_steps(root_dir, project_dir, tasks, deps),
            second,
        ),
{
    let plan = planned_steps(root_dir, project_dir, tasks, deps);
    assert(plan[0] == StepView::RemoveTree(workspace_dir_of(root_dir)));
    lemma_removal_forgets(workspace_dir_of(root_dir), first, second);
}

/// The machine after the first three steps of a plan: the workspace is empty,
/// and it and its directory of sources exist, with the directories above.
pub open spec fn cleared(root_dir: Seq<char>, disk: Disk) -> Disk {
    let ws = workspace_dir_of(root_dir);
    Disk {
        files: outside(disk.files, ws),
        dirs: dirs_outside(disk.dirs, ws).union(upwards(ws)).union(upwards(sources_dir_of(ws))),
    }
}

/// The first three steps of a plan clear the workspace and make its
/// directories; they cannot fail.
pub proof fn lemma_plan_begins_clean(
    root_dir: Seq<char>,
    project_dir: Seq<char>,
    tasks: Seq<TaskDefinitionView>,
    deps: Option<Seq<(Seq<char>, Seq<char>)>>,
    disk: Disk,
)
    ensures
        carried_out(planned_steps(root_dir, project_dir, tasks, deps).take(3), disk) == Some(
            cleared(root_dir, disk),
        ),
        carried_out(planned_steps(root_dir, project_dir, tasks, deps), disk) == carried_out(
            planned_steps(root_dir, project_dir, tasks, deps).skip(3),
            cleared(root_dir, disk),
        ),
        cleared(root_dir, disk).dirs.contains(workspace_dir_of(root_dir)),
        cleared(root_dir, disk).dirs.contains(sources_dir_of(workspace_dir_of(root_dir))),
{
    let plan = planned_steps(root_dir, project_dir, tasks, deps);
    let ws = workspace_dir_of(root_dir);
    let src = sources_dir_of(ws);
    let head = plan.take(3);
    reveal_with_fuel(carried_out, 4);
    assert(head[0] == StepView::RemoveTree(ws));
    assert(head.drop_first()[0] == StepView::CreateDir(ws));
    assert(head.drop_first().drop_first()[0] == StepView::CreateDir(src));
    assert(head.drop_first().drop_first().drop_first().len() == 0);
    lemma_carried_out_in_two(plan, disk, 3);
    lemma_within_itself(ws, Seq::empty());
    lemma_within_itself(src, Seq::empty());
}

/// Making a workspace twice is making it once: where a plan has been carried
/// out, carrying it out once more succeeds and leaves the machine as it is.
pub proof fn lemma_workspace_is_idempotent(
    root_dir: Seq<char>,
    project_dir: Seq<char>,
    tasks: Seq<TaskDefinitionView>,
    deps: Option<Seq<(Seq<char>, Seq<char>)>>,
    disk: Disk,
)
    ensures
        planned(root_dir, project_dir, tasks, deps) matches Ok(plan) ==> (carried_out(plan, disk)
            matches Some(after) ==> carried_out(plan, after) == Some(after)),
{
    lemma_planned_names(root_dir, project_dir, tasks, deps);
    if let Ok(plan) = planned(root_dir, project_dir, tasks, deps) {
        if let Some(after) = carried_out(plan, disk) {
            let ws = workspace_dir_of(root_dir);
            let rest = plan.skip(3);
            let first = cleared(root_dir, disk);
            let second = cleared(root_dir, after);
            lemma_plan_stays_within(root_dir, project_dir, tasks, deps);
            lemma_plan_begins_clean(root_dir, project_dir, tasks, deps, disk);
            lemma_plan_begins_clean(root_dir, project_dir, tasks, deps, after);
            assert forall|i: int| 0 <= i < rest.len() implies keeps_dirs(#[trigger] rest[i]) by {
                assert(rest[i] == plan[i + 3]);
            }
            lemma_dirs_are_kept(rest, first);
            lemma_outside_is_kept(plan, ws, disk);
            assert(second.files =~= first.files);
            assert(second.dirs =~= first.dirs);
        }
    }
}

/// After a plan has been carried out the workspace holds the build descriptor
/// and one source file for each task, and no other file, whatever it held
/// before. The descriptor is the one that lists the tasks of the plan.
pub proof fn lemma_workspace_holds_the_plan(
    root_dir: Seq<char>,
    project_dir: Seq<char>,
    tasks: Seq<TaskDefinitionView>,
    deps: Option<Seq<(Seq<char>, Seq<char>)>>,
    disk: Disk,
)
    ensures
        planned(root_dir, project_dir, tasks, deps) matches Ok(plan) ==> (carried_out(plan, disk)
            matches Some(after) ==> {
            let ws = workspace_dir_of(root_dir);
            &&& forall|path: Seq<char>|
                within(ws, path) ==> (#[trigger] after.files.dom().contains(path) <==> path
                    == descriptor_path_of(ws) || exists|i: int|
                    0 <= i < tasks.len() && path == source_in_workspace(
                        root_dir,
                        (#[trigger] tasks[i]).name,
                    ))
            &&& after.files.dom().contains(descriptor_path_of(ws))
            &&& after.files[descriptor_path_of(ws)] == descriptor(names_of(tasks), deps)
        }),
{
    lemma_planned_names(root_dir, project_dir, tasks, deps);
    if planned(root_dir, project_dir, tasks, deps) is Ok && carried_out(
        planned_steps(root_dir, project_dir, tasks, deps),
        disk,
    ) is Some {
        let plan = planned_steps(root_dir, project_dir, tasks, deps);
        let after = carried_out(plan, disk)->0;
        let ws = workspace_dir_of(root_dir);
        let src = sources_dir_of(ws);
        let emptied = effect(plan[0], disk)->0;
        let rest = plan.drop_first();
        assert(plan[0] == StepView::RemoveTree(ws));
        assert(carried_out(plan, disk) == carried_out(rest, emptied));
        assert forall|i: int| 0 <= i < rest.len() implies !(#[trigger] rest[i] is RemoveTree) by {
            assert(rest[i] == plan[i + 1]);
            if 2 <= i < 2 + tasks.len() {
                assert(plan[i + 1] == copy_step(project_dir, src, tasks[i - 2]));
            }
        }
        lemma_written_is_added(rest, emptied);
        let last = StepView::WriteFile {
            path: descriptor_path_of(ws),
            contents: descriptor(names_of(tasks), deps),
        };
        assert forall|path: Seq<char>| within(ws, path) implies (
        #[trigger] after.files.dom().contains(path) <==> path == descriptor_path_of(ws)
            || exists|i: int|
            0 <= i < tasks.len() && path == source_in_workspace(
                root_dir,
                (#[trigger] tasks[i]).name,
            )) by {
            assert(!emptied.files.dom().contains(path));
            if written(rest).contains(path) {
                let i = choose|i: int| 0 <= i < rest.len() && writes_to(#[trigger] rest[i], path);
                assert(rest[i] == plan[i + 1]);
                if 2 <= i < 2 + tasks.len() {
                    assert(plan[i + 1] == copy_step(project_dir, src, tasks[i - 2]));
                    assert(path == source_in_workspace(root_dir, tasks[i - 2].name));
                } else {
                    assert(i == 2 + tasks.len());
                    assert(plan[i + 1] == last);
                }
            }
            if path == descriptor_path_of(ws) {
                assert(rest[2 + tasks.len() as int] == plan[3 + tasks.len() as int]);
                assert(plan[3 + tasks.len() as int] == last);
                assert(writes_to(rest[2 + tasks.len() as int], path));
            }
            if exists|i: int|
                0 <= i < tasks.len() && path == source_in_workspace(
                    root_dir,
                    (#[trigger] tasks[i]).name,
                ) {
                let i = choose|i: int|
                    0 <= i < tasks.len() && path == source_in_workspace(
                        root_dir,
                        (#[trigger] tasks[i]).name,
                    );
                assert(rest[2 + i] == plan[3 + i]);
                assert(plan[3 + i] == copy_step(project_dir, src, tasks[i]));
                assert(writes_to(rest[2 + i], path));
            }
        }
        lemma_last_write_stands(plan, disk);
        assert(plan.last() == last);
    }
}

/// Two tasks whose sources lie at the same place in the workspace bear the
/// same name.
pub proof fn lemma_source_in_workspace_is_one_to_one(
    root_dir: Seq<char>,
    first: Seq<char>,
    second: Seq<char>,
)
    requires
        is_component(first),
        is_component(second),
        source_in_workspace(root_dir, first) == source_in_workspace(root_dir, second),
    ensures
        first == second,
{
    let src = sources_dir_of(workspace_dir_of(root_dir));
    lemma_sources_dir(root_dir);
    lemma_source_file_is_component(first);
    lemma_source_file_is_component(second);
    reveal_strlit(".rs");
    let a = source_file(first);
    let b = source_file(second);
    let left = src + seq![separator()] + a;
    let right = src + seq![separator()] + b;
    assert(left == right);
    assert(first.len() == second.len()) by {
        assert(left.len() == src.len() + 1 + first.len() + 3);
        assert(right.len() == src.len() + 1 + second.len() + 3);
    }
    assert forall|k: int| 0 <= k < first.len() implies first[k] == second[k] by {
        assert(left[src.len() + 1 + k] == first[k]);
        assert(right[src.len() + 1 + k] == second[k]);
    }
    assert(first =~= second);
}

/// The build descriptor lies at another place than the source of any task.
pub proof fn lemma_descriptor_is_no_source(root_dir: Seq<char>, name: Seq<char>)
    requires
        is_component(name),
    ensures
        descriptor_path_of(workspace_dir_of(root_dir)) != source_in_workspace(root_dir, name),
{
    let ws = workspace_dir_of(root_dir);
    let src = sources_dir_of(ws);
    lemma_sources_dir(root_dir);
    lemma_source_file_is_component(name);
    reveal_strlit("Cargo.toml");
    reveal_strlit("src");
    let file = source_file(name);
    let there = src + seq![separator()] + file;
    let here = ws + seq![separator()] + "Cargo.toml"@;
    assert(source_in_workspace(root_dir, name) == there);
    assert(descriptor_path_of(ws) == here);
    assert(here[ws.len() as int + 1] == 'C');
    assert(there[ws.len() as int + 1] == 's');
}

/// After a plan has been carried out, the workspace holds for each task the
/// contents that the task's source had: one copy under the task's name. This
/// holds where no two tasks bear the same name and no source lies in the
/// workspace itself.
pub proof fn lemma_workspace_holds_the_sources(
    root_dir: Seq<char>,
    project_dir: Seq<char>,
    tasks: Seq<TaskDefinitionView>,
    deps: Option<Seq<(Seq<char>, Seq<char>)>>,
    disk: Disk,
    i: int,
)
    requires
        names_of(tasks).no_duplicates(),
        forall|j: int|
            0 <= j < tasks.len() ==> !within(
                workspace_dir_of(root_dir),
                joined(project_dir, (#[trigger] tasks[j]).path),
            ),
        0 <= i < tasks.len(),
    ensures
        planned(root_dir, project_dir, tasks, deps) matches Ok(plan) ==> (carried_out(plan, disk)
            matches Some(after) ==> {
            &&& disk.files.dom().contains(joined(project_dir, tasks[i].path))
            &&& after.files.dom().contains(source_in_workspace(root_dir, tasks[i].name))
            &&& after.files[source_in_workspace(root_dir, tasks[i].name)]
                == disk.files[joined(project_dir, tasks[i].path)]
        }),
{
    lemma_planned_names(root_dir, project_dir, tasks, deps);
    if planned(root_dir, project_dir, tasks, deps) is Ok && carried_out(
        planned_steps(root_dir, project_dir, tasks, deps),
        disk,
    ) is Some {
        let plan = planned_steps(root_dir, project_dir, tasks, deps);
        let ws = workspace_dir_of(root_dir);
        let src = sources_dir_of(ws);
        let from = joined(project_dir, tasks[i].path);
        let to = source_in_workspace(root_dir, tasks[i].name);
        let k = 3 + i;
        let before = plan.take(k);
        let rest = plan.skip(k);
        let after_rest = rest.drop_first();
        lemma_plan_stays_within(root_dir, project_dir, tasks, deps);
        lemma_carried_out_in_two(plan, disk, k);
        let between = carried_out(before, disk)->0;
        assert(rest[0] == plan[k]);
        assert(plan[k] == copy_step(project_dir, src, tasks[i]));
        assert(is_component(names_of(tasks)[i]));
        // The source is as it was when its turn comes.
        assert forall|j: int| 0 <= j < before.len() implies leaves(#[trigger] before[j], from) by {
            assert(before[j] == plan[j]);
            assert(stays_within(plan[j], ws));
        }
        lemma_left_alone(before, disk, from);
        let copied = Disk {
            files: between.files.insert(to, between.files[from]),
            dirs: between.dirs,
        };
        assert(effect(rest[0], between) == Some(copied));
        assert(carried_out(rest, between) == carried_out(after_rest, copied));
        // Nothing that follows writes to the copy.
        assert forall|j: int| 0 <= j < after_rest.len() implies leaves(
            #[trigger] after_rest[j],
            to,
        ) by {
            assert(after_rest[j] == plan[k + 1 + j]);
            if k + 1 + j < 3 + tasks.len() {
                let other = tasks[i + 1 + j];
                assert(plan[k + 1 + j] == copy_step(project_dir, src, other));
                assert(is_component(names_of(tasks)[i + 1 + j]));
                if source_in_workspace(root_dir, other.name) == to {
                    lemma_source_in_workspace_is_one_to_one(root_dir, other.name, tasks[i].name);
                    assert(names_of(tasks)[i + 1 + j] == names_of(tasks)[i]);
                }
            } else {
                assert(plan[k + 1 + j] == (StepView::WriteFile {
                    path: descriptor_path_of(ws),
                    contents: descriptor(names_of(tasks), deps),
                }));
                lemma_descriptor_is_no_source(root_dir, tasks[i].name);
            }
        }
        lemma_left_alone(after_rest, copied, to);
    }
}

/// A plan can be carried out where the source of every task exists and does
/// not lie in the workspace: the plan makes every directory into which it
/// writes.
pub proof fn lemma_plan_can_be_carried_out(
    root_dir: Seq<char>,
    project_dir: Seq<char>,
    tasks: Seq<TaskDefinitionView>,
    deps: Option<Seq<(Seq<char>, Seq<char>)>>,
    disk: Disk,
)
    requires
        forall|j: int|
            0 <= j < tasks.len() ==> disk.files.dom().contains(
                joined(project_dir, (#[trigger] tasks[j]).path),
            ) && !within(workspace_dir_of(root_dir), joined(project_dir, tasks[j].path)),
    ensures
        planned(root_dir, project_dir, tasks, deps) matches Ok(plan) ==> carried_out(plan, disk)
            is Some,
{
    lemma_planned_names(root_dir, project_dir, tasks, deps);
    if let Ok(plan) = planned(root_dir, project_dir, tasks, deps) {
        lemma_steps_succeed(root_dir, project_dir, tasks, deps, disk, plan.len() as int);
        assert(plan.take(plan.len() as int) =~= plan);
    }
}

/// The first `k` steps of a plan can be carried out, under the conditions of
/// [`lemma_plan_can_be_carried_out`].
proof fn lemma_steps_succeed(
    root_dir: Seq<char>,
    project_dir: Seq<char>,
    tasks: Seq<TaskDefinitionView>,
    deps: Option<Seq<(Seq<char>, Seq<char>)>>,
    disk: Disk,
    k: int,
)
    requires
        all_components(names_of(tasks)),
        forall|j: int|
            0 <= j < tasks.len() ==> disk.files.dom().contains(
                joined(project_dir, (#[trigger] tasks[j]).path),
            ) && !within(workspace_dir_of(root_dir), joined(project_dir, tasks[j].path)),
        3 <= k <= planned_steps(root_dir, project_dir, tasks, deps).len(),
    ensures
        carried_out(planned_steps(root_dir, project_dir, tasks, deps).take(k), disk) is Some,
    decreases k,
{
    let plan = planned_steps(root_dir, project_dir, tasks, deps);
    let ws = workspace_dir_of(root_dir);
    let src = sources_dir_of(ws);
    if k == 3 {
        lemma_plan_begins_clean(root_dir, project_dir, tasks, deps, disk);
    } else {
        lemma_steps_succeed(root_dir, project_dir, tasks, deps, disk, k - 1);
        let done = plan.take(k - 1);
        let reached = carried_out(done, disk)->0;
        let now = plan.take(k);
        let step = plan[k - 1];
        lemma_carried_out_in_two(now, disk, k - 1);
        assert(now.take(k - 1) =~= done);
        assert(now.skip(k - 1) =~= seq![step]);
        reveal_with_fuel(carried_out, 2);
        assert(carried_out(seq![step], reached) == effect(step, reached)) by {
            assert(seq![step].drop_first().len() == 0);
        }
        // The directories are those that the first three steps have made.
        lemma_plan_stays_within(root_dir, project_dir, tasks, deps);
        lemma_plan_begins_clean(root_dir, project_dir, tasks, deps, disk);
        lemma_carried_out_in_two(done, disk, 3);
        assert(done.take(3) =~= plan.take(3));
        let later = done.skip(3);
        assert forall|j: int| 0 <= j < later.len() implies keeps_dirs(#[trigger] later[j]) by {
            assert(later[j] == plan[j + 3]);
        }
        lemma_dirs_are_kept(later, cleared(root_dir, disk));
        assert(reached.dirs.contains(ws));
        assert(reached.dirs.contains(src));
        lemma_sources_dir(root_dir);
        if k - 1 < 3 + tasks.len() {
            let task = tasks[k - 4];
            let from = joined(project_dir, task.path);
            assert(step == copy_step(project_dir, src, task));
            assert(is_component(names_of(tasks)[k - 4]));
            lemma_source_file_is_component(task.name);
            lemma_within_itself(src, source_file(task.name));
            assert(has_place(reached.dirs, joined(src, source_file(task.name))));
            assert forall|j: int| 0 <= j < done.len() implies leaves(#[trigger] done[j], from) by {
                assert(done[j] == plan[j]);
                assert(stays_within(plan[j], ws));
            }
            lemma_left_alone(done, disk, from);
        } else {
            assert(step == (StepView::WriteFile {
                path: descriptor_path_of(ws),
                contents: descriptor(names_of(tasks), deps),
            }));
            lemma_within_itself(ws, "Cargo.toml"@);
            assert(has_place(reached.dirs, joined(ws, "Cargo.toml"@)));
        }
    }
}

} // verus!
