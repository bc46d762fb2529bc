use cargo_task_wasm::cargo::{Manifest, TaskDetail};
use cargo_task_wasm::env::{EnvVars, Environment};
use cargo_task_wasm::error::TaskError;
use cargo_task_wasm::name_map::NameMap;
use cargo_task_wasm::task::{resolve_tasks, TaskDefinition};
use cargo_task_wasm::workspace::{
    build_task_workspace, render_descriptor, Selection, Step, WorkspacePlan,
};

const PACKAGE: &str =
    "\n    [package]\n    name = \"_tasks\"\n    version = \"0.1.0\"\n    edition = \"2021\"\n    \n";

fn target(name: &str) -> String {
    format!(
        "\n            [[bin]]\n            name = \"{name}\"\n            path = \"src/{name}.rs\"\n            \n"
    )
}

fn task(name: &str, path: &str) -> TaskDefinition {
    TaskDefinition { name: name.to_string(), path: path.to_string(), env: EnvVars::Nothing }
}

fn all(tasks: Vec<TaskDefinition>) -> Selection {
    let mut map = NameMap::new();
    for task in tasks {
        map.insert(task.name.clone(), task);
    }
    Selection::All(map)
}

fn deps(pairs: &[(&str, &str)]) -> NameMap<String> {
    let mut map = NameMap::new();
    for (name, version) in pairs {
        map.insert(name.to_string(), version.to_string());
    }
    map
}

fn manifest(dependencies: Option<NameMap<String>>) -> Manifest {
    Manifest { tasks: NameMap::new(), task_dependencies: dependencies }
}

fn copies(plan: &WorkspacePlan) -> Vec<(String, String)> {
    plan.steps
        .iter()
        .filter_map(|step| match step {
            Step::CopyFile { from, to } => Some((from.clone(), to.clone())),
            _ => None,
        })
        .collect()
}

#[test]
fn descriptor_of_one_task() {
    let selection = Selection::Single(task("build", "scripts/build.rs"));
    let text = render_descriptor(&selection, None);
    assert_eq!(text, format!("{PACKAGE}{}", target("build")));
    assert_eq!(
        text,
        "\n    [package]\n    name = \"_tasks\"\n    version = \"0.1.0\"\n    edition = \"2021\"\n    \n\n            [[bin]]\n            name = \"build\"\n            path = \"src/build.rs\"\n            \n"
    );
}

#[test]
fn descriptor_without_tasks() {
    let text = render_descriptor(&all(vec![]), None);
    assert_eq!(text, PACKAGE);
}

#[test]
fn descriptor_lists_tasks_by_name() {
    let selection = all(vec![task("lint", "tasks/lint.rs"), task("build", "tasks/build.rs")]);
    let text = render_descriptor(&selection, None);
    assert_eq!(text, format!("{PACKAGE}{}{}", target("build"), target("lint")));
}

#[test]
fn descriptor_with_dependencies() {
    let selection = Selection::Single(task("build", "tasks/build.rs"));
    let shared = deps(&[("serde", "1.0"), ("anyhow", "^1.0.80")]);
    let text = render_descriptor(&selection, Some(&shared));
    assert_eq!(
        text,
        format!(
            "{PACKAGE}{}[dependencies]\nanyhow = \"^1.0.80\"\nserde = \"1.0\"\n",
            target("build")
        )
    );
}

#[test]
fn descriptor_with_empty_dependency_table() {
    let selection = Selection::Single(task("build", "tasks/build.rs"));
    let shared = deps(&[]);
    let text = render_descriptor(&selection, Some(&shared));
    assert_eq!(text, format!("{PACKAGE}{}[dependencies]\n", target("build")));
}

#[test]
fn descriptor_has_one_target_for_each_task() {
    let selection = all(vec![task("a", "tasks/a.rs"), task("b", "tasks/b.rs")]);
    let text = render_descriptor(&selection, None);
    assert_eq!(text.matches("[[bin]]").count(), 2);
    assert_eq!(text.matches("name = \"a\"").count(), 1);
    assert_eq!(text.matches("path = \"src/a.rs\"").count(), 1);
    assert_eq!(text.matches("name = \"b\"").count(), 1);
    assert_eq!(text.matches("[package]").count(), 1);
    assert_eq!(text.matches("name = \"_tasks\"").count(), 1);
}

#[test]
fn plan_for_one_task() {
    let selection = Selection::Single(task("build", "scripts/build.rs"));
    let shared = deps(&[("serde", "1")]);
    let plan = build_task_workspace(
        &manifest(Some(shared)),
        "/proj/target/tasks",
        "/proj",
        &selection,
    ).unwrap();
    assert_eq!(plan.workspace_dir, "/proj/target/tasks/ws");
    assert_eq!(
        plan.steps,
        vec![
            Step::RemoveTree("/proj/target/tasks/ws".to_string()),
            Step::CreateDir("/proj/target/tasks/ws".to_string()),
            Step::CreateDir("/proj/target/tasks/ws/src".to_string()),
            Step::CopyFile {
                from: "/proj/scripts/build.rs".to_string(),
                to: "/proj/target/tasks/ws/src/build.rs".to_string(),
            },
            Step::WriteFile {
                path: "/proj/target/tasks/ws/Cargo.toml".to_string(),
                contents: format!("{PACKAGE}{}[dependencies]\nserde = \"1\"\n", target("build")),
            },
        ]
    );
}

#[test]
fn plan_keeps_an_absolute_source_path() {
    let selection = Selection::Single(task("abs", "/opt/tasks/abs.rs"));
    let plan = build_task_workspace(&manifest(None), "out/", "/proj", &selection).unwrap();
    assert_eq!(plan.workspace_dir, "out/ws");
    assert_eq!(
        copies(&plan),
        vec![("/opt/tasks/abs.rs".to_string(), "out/ws/src/abs.rs".to_string())]
    );
}

#[test]
fn plan_for_all_tasks() {
    let mut declared = NameMap::new();
    declared.insert(
        "build".to_string(),
        TaskDetail { path: Some("scripts/build.rs".to_string()), permissions: None },
    );
    let manifest = Manifest { tasks: declared, task_dependencies: None };
    let files = vec!["lint.rs".to_string(), "build.rs".to_string()];
    let tasks = resolve_tasks(&manifest, &files, &Environment::new());
    let plan = build_task_workspace(&manifest, "/p/target/tasks", "/p", &Selection::All(tasks)).unwrap();
    assert_eq!(plan.steps.len(), 6);
    assert_eq!(plan.steps[0], Step::RemoveTree("/p/target/tasks/ws".to_string()));
    assert_eq!(
        copies(&plan),
        vec![
            ("/p/scripts/build.rs".to_string(), "/p/target/tasks/ws/src/build.rs".to_string()),
            ("/p/tasks/lint.rs".to_string(), "/p/target/tasks/ws/src/lint.rs".to_string()),
        ]
    );
    match plan.steps.last() {
        Some(Step::WriteFile { path, contents }) => {
            assert_eq!(path, "/p/target/tasks/ws/Cargo.toml");
            assert_eq!(contents, &format!("{PACKAGE}{}{}", target("build"), target("lint")));
        }
        other => panic!("the last step writes the descriptor, not {other:?}"),
    }
}

#[test]
fn planning_twice_gives_the_same_workspace() {
    let selection = Selection::Single(task("build", "tasks/build.rs"));
    let first = build_task_workspace(&manifest(None), "/p/target/tasks", "/p", &selection).unwrap();
    let second = build_task_workspace(&manifest(None), "/p/target/tasks", "/p", &selection).unwrap();
    assert_eq!(first, second);
    assert_eq!(first.steps[0], Step::RemoveTree(first.workspace_dir.clone()));
    assert_eq!(copies(&second).len(), 1);
    match second.steps.last() {
        Some(Step::WriteFile { contents, .. }) => {
            assert_eq!(contents.matches("[[bin]]").count(), 1);
            assert_eq!(contents.matches("name = \"build\"").count(), 1);
        }
        other => panic!("the last step writes the descriptor, not {other:?}"),
    }
}

#[test]
fn selection_lists_its_tasks() {
    let single = Selection::Single(task("one", "tasks/one.rs"));
    assert_eq!(single.len(), 1);
    assert_eq!(single.task_at(0).name, "one");
    let many = all(vec![task("b", "tasks/b.rs"), task("a", "tasks/a.rs")]);
    assert_eq!(many.len(), 2);
    assert_eq!(many.task_at(0).name, "a");
    assert_eq!(many.task_at(1).name, "b");
}

/// A machine that is held in memory: the contents of its files by path, and
/// its directories.
#[derive(Clone, Debug, PartialEq, Default)]
struct Machine {
    files: std::collections::BTreeMap<String, String>,
    dirs: std::collections::BTreeSet<String>,
}

impl Machine {
    fn with_files(files: &[(&str, &str)]) -> Machine {
        let mut machine = Machine::default();
        for (path, contents) in files {
            machine.files.insert(path.to_string(), contents.to_string());
        }
        machine
    }

    fn has_place(&self, path: &str) -> bool {
        match cargo_task_wasm::path::parent_dir(path) {
            Some(dir) => self.dirs.contains(&dir),
            None => false,
        }
    }

    /// Carries the steps out in order and says whether all of them succeeded.
    fn carry_out(&mut self, steps: &[Step]) -> bool {
        for step in steps {
            match step {
                Step::RemoveTree(dir) => {
                    let below = format!("{dir}/");
                    self.files.retain(|path, _| path != dir && !path.starts_with(&below));
                    self.dirs.retain(|path| path != dir && !path.starts_with(&below));
                }
                Step::CreateDir(dir) => {
                    let mut next = Some(dir.clone());
                    while let Some(path) = next {
                        next = cargo_task_wasm::path::parent_dir(&path);
                        self.dirs.insert(path);
                    }
                }
                Step::CopyFile { from, to } => match self.files.get(from).cloned() {
                    Some(contents) if self.has_place(to) => {
                        self.files.insert(to.clone(), contents);
                    }
                    _ => return false,
                },
                Step::WriteFile { path, contents } => {
                    if !self.has_place(path) {
                        return false;
                    }
                    self.files.insert(path.clone(), contents.clone());
                }
            }
        }
        true
    }
}

#[test]
fn workspace_forgets_what_an_earlier_run_left() {
    let selection = Selection::Single(task("build", "scripts/build.rs"));
    let plan = build_task_workspace(&manifest(None), "/p/target/tasks", "/p", &selection).unwrap();

    let mut clean = Machine::with_files(&[
        ("/p/scripts/build.rs", "fn main() {}"),
        ("/p/target/tasks/ws2/keep", "sibling"),
    ]);
    let mut stale = clean.clone();
    stale.dirs.insert("/p/target/tasks/ws/src/old".to_string());
    stale.files.insert("/p/target/tasks/ws/src/old.rs".to_string(), "stale".to_string());
    stale.files.insert("/p/target/tasks/ws/src/build.rs".to_string(), "older".to_string());
    stale.files.insert("/p/target/tasks/ws/Cargo.toml".to_string(), "[[bin]]\n[[bin]]".to_string());

    assert!(clean.carry_out(&plan.steps));
    assert!(stale.carry_out(&plan.steps));
    assert_eq!(clean, stale);

    let in_workspace: Vec<&String> =
        stale.files.keys().filter(|path| path.starts_with("/p/target/tasks/ws/")).collect();
    assert_eq!(
        in_workspace,
        vec!["/p/target/tasks/ws/Cargo.toml", "/p/target/tasks/ws/src/build.rs"]
    );
    assert_eq!(stale.files["/p/target/tasks/ws/src/build.rs"], "fn main() {}");
    assert_eq!(stale.files["/p/target/tasks/ws/Cargo.toml"].matches("[[bin]]").count(), 1);
    assert_eq!(stale.files["/p/target/tasks/ws2/keep"], "sibling");
}

#[test]
fn making_the_workspace_twice_changes_nothing() {
    let selection = all(vec![task("a", "tasks/a.rs"), task("b", "other/b.rs")]);
    let plan = build_task_workspace(
        &manifest(Some(deps(&[("serde", "1")]))),
        "/p/target/tasks",
        "/p",
        &selection,
    )
    .unwrap();
    let mut machine = Machine::with_files(&[("/p/tasks/a.rs", "a"), ("/p/other/b.rs", "b")]);
    assert!(machine.carry_out(&plan.steps));
    let once = machine.clone();
    assert!(machine.carry_out(&plan.steps));
    assert_eq!(machine, once);
    assert_eq!(machine.files.len(), 5);
}

#[test]
fn plan_changes_no_file_outside_the_workspace() {
    let selection = all(vec![task("a", "tasks/a.rs"), task("b", "tasks/b.rs")]);
    let plan = build_task_workspace(&manifest(None), "/p/target/tasks", "/p", &selection).unwrap();
    let before = Machine::with_files(&[
        ("/p/tasks/a.rs", "a"),
        ("/p/Cargo.toml", "[package]"),
        ("/a.rs", "root"),
    ]);
    for done in 0..=plan.steps.len() {
        let mut machine = before.clone();
        machine.carry_out(&plan.steps[..done]);
        let outside: Vec<(&String, &String)> = machine
            .files
            .iter()
            .filter(|(path, _)| !path.starts_with("/p/target/tasks/ws/"))
            .collect();
        assert_eq!(outside, before.files.iter().collect::<Vec<_>>());
    }
}

#[test]
fn missing_source_stops_the_plan() {
    let selection = Selection::Single(task("build", "tasks/build.rs"));
    let plan = build_task_workspace(&manifest(None), "/p/target/tasks", "/p", &selection).unwrap();
    let mut machine = Machine::default();
    assert!(!machine.carry_out(&plan.steps));
}

#[test]
fn plan_with_its_sources_can_be_carried_out() {
    let selection = all(vec![task("a", "tasks/a.rs"), task("b", "/abs/b.rs")]);
    let plan = build_task_workspace(&manifest(None), "out", "/p", &selection).unwrap();
    let mut machine = Machine::with_files(&[("/p/tasks/a.rs", "a"), ("/abs/b.rs", "b")]);
    assert!(machine.carry_out(&plan.steps));
    assert_eq!(machine.files["out/ws/src/a.rs"], "a");
    assert_eq!(machine.files["out/ws/src/b.rs"], "b");
    assert!(machine.dirs.contains("out/ws/src"));
}

#[test]
fn name_that_leaves_the_workspace_is_refused() {
    for name in ["/x", "../../../x", "a/b", "x/", "..", ".", ""] {
        let selection = Selection::Single(task(name, "tasks/x.rs"));
        let result = build_task_workspace(&manifest(None), "/p/target/tasks", "/p", &selection);
        assert_eq!(result, Err(TaskError::InvalidName(name.to_string())));
    }
}

#[test]
fn refused_plan_names_the_first_offending_task() {
    let selection = all(vec![
        task("a", "tasks/a.rs"),
        task("b/c", "tasks/c.rs"),
        task("z", "tasks/z.rs"),
        task("d/e", "tasks/e.rs"),
    ]);
    let result = build_task_workspace(&manifest(None), "/p/target/tasks", "/p", &selection);
    assert_eq!(result, Err(TaskError::InvalidName("b/c".to_string())));
    assert_eq!(
        result.unwrap_err().message(),
        "the task name \"b/c\" is not the name of a file"
    );
}

#[test]
fn names_with_dots_are_names() {
    for name in ["a.b", "...", ".hidden", "a..b", "x y", "grüße"] {
        let selection = Selection::Single(task(name, "tasks/x.rs"));
        let plan =
            build_task_workspace(&manifest(None), "/p/target/tasks", "/p", &selection).unwrap();
        assert_eq!(
            copies(&plan),
            vec![("/p/tasks/x.rs".to_string(), format!("/p/target/tasks/ws/src/{name}.rs"))]
        );
    }
}

#[test]
fn every_step_of_a_plan_stays_in_the_workspace() {
    let selection = all(vec![task("a", "/elsewhere/a.rs"), task("b", "../b.rs")]);
    let plan = build_task_workspace(&manifest(None), "/p/target/tasks", "/p", &selection).unwrap();
    for step in &plan.steps {
        let target = match step {
            Step::RemoveTree(dir) | Step::CreateDir(dir) => dir,
            Step::CopyFile { to, .. } => to,
            Step::WriteFile { path, .. } => path,
        };
        assert!(target == "/p/target/tasks/ws" || target.starts_with("/p/target/tasks/ws/"));
        assert!(!target.contains(".."));
    }
}

#[test]
fn build_target_points_at_the_copy() {
    let selection = Selection::Single(task("build", "scripts/compile.rs"));
    let plan = build_task_workspace(&manifest(None), "/p/target/tasks", "/p", &selection).unwrap();
    let copied_to = &copies(&plan)[0].1;
    assert_eq!(copied_to, &format!("{}/src/build.rs", plan.workspace_dir));
    match plan.steps.last() {
        Some(Step::WriteFile { contents, .. }) => {
            assert!(contents.contains("path = \"src/build.rs\""));
        }
        other => panic!("the last step writes the descriptor, not {other:?}"),
    }
}
