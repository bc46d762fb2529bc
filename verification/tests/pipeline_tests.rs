use cargo_task_wasm::compile::{artifact_path, compile_command, target_dir, CompileCommand};
use cargo_task_wasm::error::TaskError;
use cargo_task_wasm::pipeline::{
    advance, check_invocation, compiled, exit_code, Action, Progress, Stage,
};

const STAGES: [Stage; 8] = [
    Stage::Start,
    Stage::ManifestLoaded,
    Stage::TaskResolved,
    Stage::WorkspaceBuilt,
    Stage::Compiled,
    Stage::SandboxReady,
    Stage::Executed,
    Stage::Done,
];

#[test]
fn exit_code_follows_the_task() {
    assert_eq!(exit_code(true), 0);
    assert_eq!(exit_code(false), 1);
}

#[test]
fn stages_follow_each_other() {
    for pair in STAGES.windows(2) {
        assert_eq!(pair[0].next(), Some(pair[1]));
        assert_eq!(advance(pair[0], true), Progress::Reached(pair[1]));
    }
    assert_eq!(Stage::Done.next(), None);
}

#[test]
fn failure_ends_the_run_where_it_stands() {
    for stage in &STAGES[..7] {
        assert_eq!(advance(*stage, false), Progress::Aborted(*stage));
    }
}

#[test]
fn a_finished_run_stays_finished() {
    assert_eq!(advance(Stage::Done, true), Progress::Reached(Stage::Done));
    assert_eq!(advance(Stage::Done, false), Progress::Reached(Stage::Done));
}

#[test]
fn a_run_of_successes_completes() {
    let mut stage = Stage::Start;
    let mut steps = 0;
    while stage != Stage::Done {
        match advance(stage, true) {
            Progress::Reached(next) => stage = next,
            Progress::Aborted(at) => panic!("aborted at {at:?}"),
        }
        steps += 1;
    }
    assert_eq!(steps, 7);
}

#[test]
fn each_stage_has_its_work() {
    let work: Vec<Option<Action>> = STAGES.iter().map(|stage| stage.action()).collect();
    assert_eq!(
        work,
        vec![
            Some(Action::LoadManifest),
            Some(Action::ResolveTask),
            Some(Action::BuildWorkspace),
            Some(Action::Compile),
            Some(Action::PrepareSandbox),
            Some(Action::Execute),
            Some(Action::Report),
            None,
        ]
    );
}

#[test]
fn compiler_must_end_with_zero() {
    assert!(compiled(Some(0)));
    assert!(!compiled(Some(1)));
    assert!(!compiled(Some(101)));
    assert!(!compiled(Some(-1)));
    assert!(!compiled(None));
}

#[test]
fn invocation_must_be_the_task_subcommand() {
    assert_eq!(check_invocation("task"), Ok(()));
    assert_eq!(check_invocation("tasks"), Err(TaskError::NotSubcommand("tasks".to_string())));
    assert_eq!(check_invocation(""), Err(TaskError::NotSubcommand("".to_string())));
    assert_eq!(check_invocation("Task"), Err(TaskError::NotSubcommand("Task".to_string())));
    assert_eq!(
        TaskError::NotSubcommand("build".to_string()).message(),
        "cargo-task-wasm should be invoked as a `cargo` subcommand"
    );
}

#[test]
fn compiler_call() {
    assert_eq!(
        compile_command("/p/target/tasks/ws"),
        CompileCommand {
            program: "cargo".to_string(),
            args: vec![
                "+beta".to_string(),
                "build".to_string(),
                "--target".to_string(),
                "wasm32-wasip2".to_string(),
                "--target-dir".to_string(),
                "/p/target/tasks/ws/../target".to_string(),
            ],
            current_dir: "/p/target/tasks/ws".to_string(),
            inherit_env: true,
        }
    );
}

#[test]
fn artifact_lies_in_the_target_directory() {
    assert_eq!(target_dir("/p/target/tasks/ws"), "/p/target/tasks/ws/../target");
    assert_eq!(
        artifact_path("/p/target/tasks/ws", "greet"),
        "/p/target/tasks/ws/../target/wasm32-wasip2/debug/greet.wasm"
    );
    assert_eq!(artifact_path("ws/", "a"), "ws/../target/wasm32-wasip2/debug/a.wasm");
}
