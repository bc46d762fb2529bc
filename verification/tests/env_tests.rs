use cargo_task_wasm::cargo::{InheritEnv, Permissions, TaskDetail};
use cargo_task_wasm::env::{build_sandbox_env, resolve, EnvVars, Environment};

fn env_of(vars: &[(&str, &str)]) -> Environment {
    let mut env = Environment::new();
    for (name, value) in vars {
        env.set(name.to_string(), value.to_string());
    }
    env
}

fn list(names: &[&str]) -> InheritEnv {
    InheritEnv::AllowList(names.iter().map(|n| n.to_string()).collect())
}

fn pair(name: &str, value: &str) -> (String, String) {
    (name.to_string(), value.to_string())
}

#[test]
fn missing_declaration_grants_nothing() {
    let env = env_of(&[("HOME", "/root")]);
    assert_eq!(resolve(None, &env), EnvVars::Nothing);
}

#[test]
fn true_grants_everything() {
    let env = env_of(&[("HOME", "/root")]);
    assert_eq!(resolve(Some(&InheritEnv::Bool(true)), &env), EnvVars::All);
}

#[test]
fn false_grants_nothing() {
    let env = env_of(&[("HOME", "/root")]);
    assert_eq!(resolve(Some(&InheritEnv::Bool(false)), &env), EnvVars::Nothing);
}

#[test]
fn list_captures_what_is_set_in_declared_order() {
    let env = env_of(&[("A", "1"), ("B", "2"), ("C", "3")]);
    let grant = resolve(Some(&list(&["C", "A"])), &env);
    assert_eq!(grant, EnvVars::AllowList(vec![pair("C", "3"), pair("A", "1")]));
}

#[test]
fn unset_name_is_left_out() {
    let env = env_of(&[("PRESENT", "yes")]);
    let grant = resolve(Some(&list(&["MISSING", "PRESENT"])), &env);
    assert_eq!(grant, EnvVars::AllowList(vec![pair("PRESENT", "yes")]));
    match grant {
        EnvVars::AllowList(vars) => assert!(vars.iter().all(|(name, _)| name != "MISSING")),
        _ => panic!("a list resolves to a list"),
    }
}

#[test]
fn only_unset_names_give_an_empty_list() {
    let env = Environment::new();
    let grant = resolve(Some(&list(&["MISSING"])), &env);
    assert_eq!(grant, EnvVars::AllowList(vec![]));
}

#[test]
fn empty_list_gives_an_empty_list() {
    let env = env_of(&[("A", "1")]);
    assert_eq!(resolve(Some(&list(&[])), &env), EnvVars::AllowList(vec![]));
}

#[test]
fn set_name_is_captured_once_with_its_value() {
    let env = env_of(&[("NAME", "x"), ("OTHER", "y")]);
    let grant = resolve(Some(&list(&["NAME"])), &env);
    match grant {
        EnvVars::AllowList(vars) => {
            let named: Vec<_> = vars.iter().filter(|(name, _)| name == "NAME").collect();
            assert_eq!(named.len(), 1);
            assert_eq!(named[0], &pair("NAME", "x"));
            assert_eq!(vars.len(), 1);
        }
        _ => panic!("a list resolves to a list"),
    }
}

#[test]
fn empty_value_is_a_value() {
    let env = env_of(&[("EMPTY", "")]);
    let grant = resolve(Some(&list(&["EMPTY"])), &env);
    assert_eq!(grant, EnvVars::AllowList(vec![pair("EMPTY", "")]));
}

#[test]
fn name_listed_twice_is_captured_twice() {
    let env = env_of(&[("A", "1")]);
    let grant = resolve(Some(&list(&["A", "A"])), &env);
    assert_eq!(grant, EnvVars::AllowList(vec![pair("A", "1"), pair("A", "1")]));
}

#[test]
fn names_are_case_sensitive() {
    let env = env_of(&[("path", "lower")]);
    let grant = resolve(Some(&list(&["PATH", "path"])), &env);
    assert_eq!(grant, EnvVars::AllowList(vec![pair("path", "lower")]));
}

#[test]
fn resolving_twice_gives_the_same_grant() {
    let env = env_of(&[("A", "1"), ("B", "2")]);
    let declarations = vec![
        None,
        Some(InheritEnv::Bool(true)),
        Some(InheritEnv::Bool(false)),
        Some(list(&["B", "NOPE", "A"])),
    ];
    for declaration in &declarations {
        let first = resolve(declaration.as_ref(), &env);
        let second = resolve(declaration.as_ref(), &env);
        assert_eq!(first, second);
    }
}

#[test]
fn grant_depends_on_declared_names_only() {
    let small = env_of(&[("A", "1")]);
    let large = env_of(&[("A", "1"), ("SECRET", "s"), ("TOKEN", "t")]);
    let declaration = list(&["A"]);
    assert_eq!(resolve(Some(&declaration), &small), resolve(Some(&declaration), &large));
}

#[test]
fn grant_is_pinned_when_the_environment_changes() {
    let mut env = env_of(&[("A", "before")]);
    let grant = resolve(Some(&list(&["A"])), &env);
    env.set("A".to_string(), "after".to_string());
    assert_eq!(grant, EnvVars::AllowList(vec![pair("A", "before")]));
    assert_eq!(
        resolve(Some(&list(&["A"])), &env),
        EnvVars::AllowList(vec![pair("A", "after")])
    );
}

#[test]
fn environment_lookup() {
    let mut env = Environment::new();
    assert_eq!(env.get("A"), None);
    env.set("A".to_string(), "1".to_string());
    env.set("B".to_string(), "2".to_string());
    env.set("A".to_string(), "3".to_string());
    assert_eq!(env.get("A"), Some(&"3".to_string()));
    assert_eq!(env.get("B"), Some(&"2".to_string()));
    assert_eq!(env.get(""), None);
}

#[test]
fn task_without_permissions_is_granted_nothing() {
    let env = env_of(&[("A", "1")]);
    let detail = TaskDetail { path: None, permissions: None };
    assert_eq!(build_sandbox_env(&detail, &env), EnvVars::Nothing);
}

#[test]
fn task_with_empty_permissions_is_granted_nothing() {
    let env = env_of(&[("A", "1")]);
    let detail = TaskDetail { path: None, permissions: Some(Permissions { inherit_env: None }) };
    assert_eq!(build_sandbox_env(&detail, &env), EnvVars::Nothing);
}

#[test]
fn task_permissions_are_resolved() {
    let env = env_of(&[("A", "1")]);
    let all = TaskDetail {
        path: None,
        permissions: Some(Permissions { inherit_env: Some(InheritEnv::Bool(true)) }),
    };
    assert_eq!(build_sandbox_env(&all, &env), EnvVars::All);
    let none = TaskDetail {
        path: None,
        permissions: Some(Permissions { inherit_env: Some(InheritEnv::Bool(false)) }),
    };
    assert_eq!(build_sandbox_env(&none, &env), EnvVars::Nothing);
    let some = TaskDetail {
        path: Some("x.rs".to_string()),
        permissions: Some(Permissions { inherit_env: Some(list(&["A", "Z"])) }),
    };
    assert_eq!(build_sandbox_env(&some, &env), EnvVars::AllowList(vec![pair("A", "1")]));
}
