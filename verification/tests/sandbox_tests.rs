use cargo_task_wasm::cargo::{InheritEnv, Manifest, Permissions, TaskDetail};
use cargo_task_wasm::env::{EnvVars, Environment};
use cargo_task_wasm::name_map::NameMap;
use cargo_task_wasm::sandbox::{build_context, copy_grant, copy_texts, Preopen};
use cargo_task_wasm::task::{resolve_task, TaskDefinition};

fn task(env: EnvVars) -> TaskDefinition {
    TaskDefinition { name: "t".to_string(), path: "tasks/t.rs".to_string(), env }
}

fn strings(items: &[&str]) -> Vec<String> {
    items.iter().map(|s| s.to_string()).collect()
}

fn declared(name: &str, inherit_env: InheritEnv) -> Manifest {
    let mut tasks = NameMap::new();
    tasks.insert(
        name.to_string(),
        TaskDetail { path: None, permissions: Some(Permissions { inherit_env: Some(inherit_env) }) },
    );
    Manifest { tasks, task_dependencies: None }
}

#[test]
fn greet_sees_its_one_variable_and_no_other() {
    let manifest = declared("greet", InheritEnv::AllowList(strings(&["GREETING"])));
    let mut env = Environment::new();
    env.set("GREETING".to_string(), "hi".to_string());
    for i in 0..40 {
        env.set(format!("OTHER_{i}"), format!("value {i}"));
    }
    let greet = resolve_task("greet", &manifest, true, &env).unwrap();
    assert_eq!(
        greet.env,
        EnvVars::AllowList(vec![("GREETING".to_string(), "hi".to_string())])
    );
    let caps = build_context(&greet, &strings(&[]), "/p/target/tasks/ws");
    assert_eq!(caps.env, EnvVars::AllowList(vec![("GREETING".to_string(), "hi".to_string())]));
    assert_eq!(caps.trace, strings(&["setting environment variable: GREETING"]));
}

#[test]
fn open_sees_the_whole_environment() {
    let manifest = declared("open", InheritEnv::Bool(true));
    let env = Environment::new();
    let open = resolve_task("open", &manifest, false, &env).unwrap();
    let caps = build_context(&open, &strings(&[]), "/ws");
    assert_eq!(caps.env, EnvVars::All);
    assert!(caps.trace.is_empty());
}

#[test]
fn task_without_grant_sees_no_variable() {
    let caps = build_context(&task(EnvVars::Nothing), &strings(&["x"]), "/ws");
    assert_eq!(caps.env, EnvVars::Nothing);
    assert!(caps.trace.is_empty());
}

#[test]
fn streams_are_those_of_the_caller() {
    let caps = build_context(&task(EnvVars::Nothing), &strings(&[]), "/ws");
    assert!(caps.inherit_stdout);
    assert!(caps.inherit_stderr);
}

#[test]
fn arguments_are_handed_on_as_they_are() {
    let args = strings(&["--flag", "", "two words", "--", "-x", "task"]);
    let caps = build_context(&task(EnvVars::All), &args, "/ws");
    assert_eq!(caps.args, args);
}

#[test]
fn workspace_is_the_only_directory() {
    let caps = build_context(&task(EnvVars::All), &strings(&[]), "/p/target/tasks/ws");
    assert_eq!(
        caps.preopens,
        vec![Preopen {
            host_path: "/p/target/tasks/ws".to_string(),
            guest_path: "/".to_string(),
            read: true,
            write: true,
        }]
    );
}

#[test]
fn trace_names_variables_and_keeps_values_back() {
    let grant = EnvVars::AllowList(vec![
        ("TOKEN".to_string(), "s3cr3t".to_string()),
        ("USER".to_string(), "alice".to_string()),
    ]);
    let caps = build_context(&task(grant), &strings(&[]), "/ws");
    assert_eq!(
        caps.trace,
        strings(&["setting environment variable: TOKEN", "setting environment variable: USER"])
    );
    assert!(caps.trace.iter().all(|line| !line.contains("s3cr3t") && !line.contains("alice")));
}

#[test]
fn copies_are_equal_to_what_they_copy() {
    let grant = EnvVars::AllowList(vec![("A".to_string(), "1".to_string())]);
    assert_eq!(copy_grant(&grant), grant);
    assert_eq!(copy_grant(&EnvVars::All), EnvVars::All);
    assert_eq!(copy_grant(&EnvVars::Nothing), EnvVars::Nothing);
    let texts = strings(&["a", "", "c"]);
    assert_eq!(copy_texts(&texts), texts);
}
