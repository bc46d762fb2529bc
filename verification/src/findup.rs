//! The search for the project that a directory belongs to.
//!
//! The project is the nearest directory, from the one where the search starts
//! upwards, that holds a manifest. The caller looks on disk; the library says
//! where to look next and when to give up.

use crate::path::{join, joined, lemma_parent_is_shorter, parent, parent_dir};
use vstd::prelude::*;

verus! {

/// What follows from looking into one directory.
#[derive(Clone, Debug, PartialEq, Eq)]
pub enum FindUp {
    /// The directory holds a manifest: it is the project.
    Found(String),
    /// The directory holds none: look into this one, its parent, next.
    Ascend(String),
    /// The directory holds none and has no parent: there is no project.
    NotFound,
}

/// A [`FindUp`] with its path by its characters.
pub enum FindUpView {
    Found(Seq<char>),
    Ascend(Seq<char>),
    NotFound,
}

impl View for FindUp {
    type V = FindUpView;

    open spec fn view(&self) -> FindUpView {
        match self {
            FindUp::Found(dir) => FindUpView::Found(dir@),
            FindUp::Ascend(dir) => FindUpView::Ascend(dir@),
            FindUp::NotFound => FindUpView::NotFound,
        }
    }
}

/// The place of the manifest in the directory `dir`.
pub open spec fn manifest_in(dir: Seq<char>) -> Seq<char> {
    joined(dir, "Cargo.toml"@)
}

/// What follows from looking into `dir`, where `has_manifest` says whether a
/// manifest lies in it.
pub open spec fn findup_step(dir: Seq<char>, has_manifest: bool) -> FindUpView {
    if has_manifest {
        FindUpView::Found(dir)
    } else {
        match parent(dir) {
            Some(up) => FindUpView::Ascend(up),
            None => FindUpView::NotFound,
        }
    }
}

/// The project that the search from `dir` comes to, where `holds` says of each
/// directory whether a manifest lies in it.
pub open spec fn project_of(dir: Seq<char>, holds: spec_fn(Seq<char>) -> bool) -> Option<
    Seq<char>,
>
    decreases dir.len(),
{
    if holds(dir) {
        Some(dir)
    } else {
        match parent(dir) {
            Some(up) => if up.len() < dir.len() {
                project_of(up, holds)
            } else {
                None
            },
            None => None,
        }
    }
}

/// The place of the manifest in the directory `dir`.
pub fn manifest_path(dir: &str) -> (path: String)
    ensures
        path@ == manifest_in(dir@),
{
    join(dir, "Cargo.toml")
}

/// One step of the search: `dir` is the project where it holds a manifest;
/// where it holds none the search goes on in its parent, or fails where it has
/// no parent.
pub fn findup_workspace(dir: &str, has_manifest: bool) -> (next: FindUp)
    ensures
        next@ == findup_step(dir@, has_manifest),
        next matches FindUp::Ascend(up) ==> up@.len() < dir@.len(),
{
    proof {
        lemma_parent_is_shorter(dir@);
    }
    if has_manifest {
        FindUp::Found(dir.to_owned())
    } else {
        match parent_dir(dir) {
            Some(up) => FindUp::Ascend(up),
            None => FindUp::NotFound,
        }
    }
}

/// Following the steps leads to the project: a step that finds a manifest
/// ends the search at that directory, a step upwards leaves the outcome as it
/// is, and a step that gives up ends it without a project.
pub proof fn lemma_steps_find_project(dir: Seq<char>, holds: spec_fn(Seq<char>) -> bool)
    ensures
        match findup_step(dir, holds(dir)) {
            FindUpView::Found(at) => project_of(dir, holds) == Some(at),
            FindUpView::Ascend(up) => up.len() < dir.len() && project_of(dir, holds)
                == project_of(up, holds),
            FindUpView::NotFound => project_of(dir, holds).is_none(),
        },
{
    lemma_parent_is_shorter(dir);
}

/// The project that a search comes to holds a manifest, and no directory that
/// the search passed on its way up holds one.
pub proof fn lemma_project_is_nearest(dir: Seq<char>, holds: spec_fn(Seq<char>) -> bool)
    ensures
        project_of(dir, holds) matches Some(at) ==> holds(at) && at.len() <= dir.len(),
        project_of(dir, holds).is_none() ==> !holds(dir),
    decreases dir.len(),
{
    lemma_parent_is_shorter(dir);
    if !holds(dir) {
        if let Some(up) = parent(dir) {
            lemma_project_is_nearest(up, holds);
        }
    }
}

} // verus!
