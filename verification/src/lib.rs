//! The rules of a sandboxed task runner for cargo.
//!
//! A project declares tasks, small programs of its own, in its manifest or by
//! putting them into its `tasks` directory. This library decides what running
//! one of them means: where the task's source lies, which environment
//! variables the task is granted, what the workspace holds in which the task
//! is built, and what the task may use while it runs.
//!
//! The library reads no file and no environment and starts no program. It
//! takes what its caller has read and says what is to be done:
//!
//! - [`cargo`] holds the manifest as far as tasks are concerned;
//! - [`env`] resolves a task's permissions into the variables it is granted;
//! - [`task`] resolves a task's name into the task;
//! - [`workspace`] plans the workspace and writes its build descriptor, and
//!   [`files`] states what carrying out a plan does;
//! - [`compile`] says how the compiler is called and where it leaves the task;
//! - [`sandbox`] puts together what the task may use;
//! - [`pipeline`] orders the steps of a run, and [`findup`] those of the
//!   search for the project;
//! - [`name_map`], [`path`] and [`text`] are what the others are built on.

pub mod cargo;
pub mod compile;
pub mod env;
pub mod error;
pub mod files;
pub mod findup;
pub mod name_map;
pub mod path;
pub mod pipeline;
pub mod sandbox;
pub mod task;
pub mod text;
pub mod workspace;
