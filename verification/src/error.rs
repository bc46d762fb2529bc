//! What can go wrong before a task runs.

use crate::text::catenate;
use vstd::prelude::*;

verus! {

/// Why no task could be run.
#[derive(Clone, Debug, PartialEq, Eq)]
pub enum TaskError {
    /// The program was not started as the `task` subcommand; holds the word
    /// that stood in the subcommand's place.
    NotSubcommand(String),
    /// No task of this name is declared, and none lies at the conventional
    /// place; holds the name.
    NotFound(String),
    /// The name of a task is no single component of a path, so that the
    /// task's source would have no place of its own in a workspace; holds the
    /// name.
    InvalidName(String),
}

/// A [`TaskError`] with its text by its characters.
pub enum TaskErrorView {
    NotSubcommand(Seq<char>),
    NotFound(Seq<char>),
    InvalidName(Seq<char>),
}

impl View for TaskError {
    type V = TaskErrorView;

    open spec fn view(&self) -> TaskErrorView {
        match self {
            TaskError::NotSubcommand(word) => TaskErrorView::NotSubcommand(word@),
            TaskError::NotFound(name) => TaskErrorView::NotFound(name@),
            TaskError::InvalidName(name) => TaskErrorView::InvalidName(name@),
        }
    }
}

/// The message of an error. Where the error is about a task, the message
/// holds the task's name in double quotes.
pub open spec fn message_text(error: TaskErrorView) -> Seq<char> {
    match error {
        TaskErrorView::NotSubcommand(_) => {
            "cargo-task-wasm should be invoked as a `cargo` subcommand"@
        },
        TaskErrorView::NotFound(name) => "could not find a task with the name \""@ + name + "\""@,
        TaskErrorView::InvalidName(name) => "the task name \""@ + name
            + "\" is not the name of a file"@,
    }
}

impl TaskError {
    /// The message to show to the user.
    pub fn message(&self) -> (text: String)
        ensures
            text@ == message_text(self@),
    {
        match self {
            TaskError::NotSubcommand(_) => {
                "cargo-task-wasm should be invoked as a `cargo` subcommand".to_owned()
            },
            TaskError::NotFound(name) => {
                let head = catenate("could not find a task with the name \"", name.as_str());
                catenate(head.as_str(), "\"")
            },
            TaskError::InvalidName(name) => {
                let head = catenate("the task name \"", name.as_str());
                catenate(head.as_str(), "\" is not the name of a file")
            },
        }
    }
}

} // verus!
