//! The part of a project's manifest that concerns tasks.
//!
//! [`CargoToml`] follows the layout of the manifest file. The tasks and the
//! dependencies that they share stand at the top level of the file; a file
//! may also hold them under `package.metadata`, where they are looked for when
//! the top level does not declare them. [`Manifest`] is what the rest of the
//! library works on: the tasks and their shared dependencies, nothing else.

use crate::name_map::NameMap;
use vstd::prelude::*;

verus! {

/// The characters of each string of `names`.
pub open spec fn texts(names: Seq<String>) -> Seq<Seq<char>> {
    names.map_values(|s: String| s@)
}

/// The manifest file as far as tasks are concerned.
#[derive(Debug, PartialEq, Eq)]
pub struct CargoToml {
    /// The tasks that the project declares, by name.
    pub tasks: Option<NameMap<TaskDetail>>,
    /// The dependencies that all tasks share: version requirement by name.
    pub task_dependencies: Option<NameMap<String>>,
    /// The `package` table, where the file has one.
    pub package: Option<Package>,
}

/// The `package` table of the manifest file.
#[derive(Debug, PartialEq, Eq)]
pub struct Package {
    pub metadata: Option<Metadata>,
}

/// The `package.metadata` table of the manifest file.
#[derive(Debug, PartialEq, Eq)]
pub struct Metadata {
    /// The tasks that the project declares, by name.
    pub tasks: Option<NameMap<TaskDetail>>,
    /// The dependencies that all tasks share: version requirement by name.
    pub task_dependencies: Option<NameMap<String>>,
}

/// What a project declares of one task.
#[derive(Clone, Debug, PartialEq, Eq)]
pub struct TaskDetail {
    /// Where the task's source lies, relative to the manifest's directory
    /// unless absolute. Without it the task lies at its conventional place.
    pub path: Option<String>,
    /// What the task may use. Without it the task gets nothing.
    pub permissions: Option<Permissions>,
}

/// What a task is allowed to use.
#[derive(Clone, Debug, PartialEq, Eq)]
pub struct Permissions {
    /// Which environment variables the task inherits.
    pub inherit_env: Option<InheritEnv>,
}

/// Which environment variables a task inherits: all or none of them, or the
/// listed ones.
#[derive(Clone, Debug, PartialEq, Eq)]
pub enum InheritEnv {
    Bool(bool),
    AllowList(Vec<String>),
}

/// An [`InheritEnv`] with every name by its characters.
pub enum InheritEnvView {
    Bool(bool),
    AllowList(Seq<Seq<char>>),
}

impl View for InheritEnv {
    type V = InheritEnvView;

    open spec fn view(&self) -> InheritEnvView {
        match self {
            InheritEnv::Bool(b) => InheritEnvView::Bool(*b),
            InheritEnv::AllowList(names) => InheritEnvView::AllowList(texts(names@)),
        }
    }
}

/// A [`Permissions`] by its view.
pub struct PermissionsView {
    pub inherit_env: Option<InheritEnvView>,
}

impl View for Permissions {
    type V = PermissionsView;

    open spec fn view(&self) -> PermissionsView {
        PermissionsView {
            inherit_env: match self.inherit_env {
                Some(decl) => Some(decl@),
                None => None,
            },
        }
    }
}

/// A [`TaskDetail`] by its view.
pub struct TaskDetailView {
    pub path: Option<Seq<char>>,
    pub permissions: Option<PermissionsView>,
}

impl View for TaskDetail {
    type V = TaskDetailView;

    open spec fn view(&self) -> TaskDetailView {
        TaskDetailView {
            path: match self.path {
                Some(p) => Some(p@),
                None => None,
            },
            permissions: match self.permissions {
                Some(p) => Some(p@),
                None => None,
            },
        }
    }
}

impl TaskDetailView {
    /// What the detail declares on environment variables, if anything.
    pub open spec fn inherit_env(self) -> Option<InheritEnvView> {
        match self.permissions {
            Some(p) => p.inherit_env,
            None => None,
        }
    }
}

/// The tasks of a project and the dependencies that they share.
#[derive(Debug, PartialEq, Eq)]
pub struct Manifest {
    /// What the project declares of its tasks, by name.
    pub tasks: NameMap<TaskDetail>,
    /// The dependencies that all tasks share: version requirement by name.
    pub task_dependencies: Option<NameMap<String>>,
}

impl CargoToml {
    /// What the file holds under `package.metadata`, if anything.
    pub open spec fn metadata(&self) -> Option<Metadata> {
        match self.package {
            Some(package) => package.metadata,
            None => None,
        }
    }

    /// The declared tasks: those of the top level where it declares tasks,
    /// else those under `package.metadata`, if any.
    pub open spec fn declared_tasks(&self) -> Option<NameMap<TaskDetail>> {
        match self.tasks {
            Some(tasks) => Some(tasks),
            None => match self.metadata() {
                Some(metadata) => metadata.tasks,
                None => None,
            },
        }
    }

    /// The entries of the declared tasks, in order; none where the file
    /// declares no task.
    pub open spec fn task_entries(&self) -> Seq<(Seq<char>, TaskDetail)> {
        match self.declared_tasks() {
            Some(tasks) => tasks.entries(),
            None => Seq::empty(),
        }
    }

    /// The dependencies that the tasks share: those of the top level where it
    /// declares them, else those under `package.metadata`, if any.
    pub open spec fn shared_dependencies(&self) -> Option<NameMap<String>> {
        match self.task_dependencies {
            Some(dependencies) => Some(dependencies),
            None => match self.metadata() {
                Some(metadata) => metadata.task_dependencies,
                None => None,
            },
        }
    }

    /// Brings the file's layout into the one that the library works on.
    pub fn into_manifest(self) -> (manifest: Manifest)
        ensures
            manifest.tasks.entries() == self.task_entries(),
            manifest.task_dependencies == self.shared_dependencies(),
    {
        let (nested_tasks, nested_dependencies) = match self.package {
            Some(package) => match package.metadata {
                Some(metadata) => (metadata.tasks, metadata.task_dependencies),
                None => (None, None),
            },
            None => (None, None),
        };
        let tasks = match self.tasks {
            Some(tasks) => tasks,
            None => match nested_tasks {
                Some(tasks) => tasks,
                None => NameMap::new(),
            },
        };
        let task_dependencies = match self.task_dependencies {
            Some(dependencies) => Some(dependencies),
            None => nested_dependencies,
        };
        Manifest { tasks, task_dependencies }
    }
}

} // verus!
