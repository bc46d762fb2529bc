use cargo_task_wasm::cargo::{CargoToml, Manifest, Metadata, Package, TaskDetail};
use cargo_task_wasm::name_map::NameMap;

#[test]
fn file_layout_becomes_the_manifest() {
    let mut tasks = NameMap::new();
    tasks.insert("build".to_string(), TaskDetail { path: None, permissions: None });
    let mut deps = NameMap::new();
    deps.insert("serde".to_string(), "1".to_string());
    let file = CargoToml {
        tasks: None,
        task_dependencies: None,
        package: Some(Package {
            metadata: Some(Metadata { tasks: Some(tasks), task_dependencies: Some(deps) }),
        }),
    };
    let manifest = file.into_manifest();
    assert_eq!(manifest.tasks.len(), 1);
    assert!(manifest.tasks.contains_key("build"));
    assert_eq!(
        manifest.task_dependencies.as_ref().and_then(|d| d.get("serde")),
        Some(&"1".to_string())
    );
}

#[test]
fn file_without_metadata_declares_nothing() {
    let manifest = CargoToml {
        tasks: None,
        task_dependencies: None,
        package: Some(Package { metadata: None }),
    }
    .into_manifest();
    assert_eq!(manifest, Manifest { tasks: NameMap::new(), task_dependencies: None });
    let bare = CargoToml {
        tasks: None,
        task_dependencies: None,
        package: Some(Package {
            metadata: Some(Metadata { tasks: None, task_dependencies: None }),
        }),
    };
    assert_eq!(
        bare.into_manifest(),
        Manifest { tasks: NameMap::new(), task_dependencies: None }
    );
}

fn tasks_named(names: &[&str]) -> NameMap<TaskDetail> {
    let mut tasks = NameMap::new();
    for name in names {
        tasks.insert(name.to_string(), TaskDetail { path: None, permissions: None });
    }
    tasks
}

fn deps_of(pairs: &[(&str, &str)]) -> NameMap<String> {
    let mut deps = NameMap::new();
    for (name, version) in pairs {
        deps.insert(name.to_string(), version.to_string());
    }
    deps
}

#[test]
fn top_level_layout_becomes_the_manifest() {
    let file = CargoToml {
        tasks: Some(tasks_named(&["build", "lint"])),
        task_dependencies: Some(deps_of(&[("serde", "1")])),
        package: None,
    };
    assert_eq!(
        file.into_manifest(),
        Manifest {
            tasks: tasks_named(&["build", "lint"]),
            task_dependencies: Some(deps_of(&[("serde", "1")])),
        }
    );
}

#[test]
fn top_level_comes_before_package_metadata() {
    let file = CargoToml {
        tasks: Some(tasks_named(&["top"])),
        task_dependencies: None,
        package: Some(Package {
            metadata: Some(Metadata {
                tasks: Some(tasks_named(&["nested"])),
                task_dependencies: Some(deps_of(&[("anyhow", "1")])),
            }),
        }),
    };
    assert_eq!(
        file.into_manifest(),
        Manifest {
            tasks: tasks_named(&["top"]),
            task_dependencies: Some(deps_of(&[("anyhow", "1")])),
        }
    );
}

#[test]
fn empty_file_declares_nothing() {
    let file = CargoToml { tasks: None, task_dependencies: None, package: None };
    assert_eq!(file.into_manifest(), Manifest { tasks: NameMap::new(), task_dependencies: None });
}
