//! The failures that the operations report. None is recovered from inside the
//! library: each is returned to the caller.

use vstd::prelude::*;
use crate::names::name_views;

verus! {

/// What an error is in contracts.
pub ghost enum ErrorView {
    ProjectDependenciesNotFound,
    DependencyGroupNotFound(Seq<char>),
    DependencyGroupConflict(Seq<Seq<char>>),
    OutputFilePathDoesNotExist(Seq<char>),
}

#[derive(Debug)]
pub enum Error {
    /// The manifest exposes neither a list of required dependencies nor a
    /// mapping of optional groups.
    ProjectDependenciesNotFound,
    /// A requested group has no entry in the registry.
    DependencyGroupNotFound(String),
    /// These groups are asked for and excluded at once.
    DependencyGroupConflict(Vec<String>),
    /// The directory that is to hold the exported file does not exist.
    OutputFilePathDoesNotExist(String),
}

impl View for Error {
    type V = ErrorView;

    open spec fn view(&self) -> ErrorView {
        match self {
            Error::ProjectDependenciesNotFound => ErrorView::ProjectDependenciesNotFound,
            Error::DependencyGroupNotFound(name) => ErrorView::DependencyGroupNotFound(name@),
            Error::DependencyGroupConflict(names) => ErrorView::DependencyGroupConflict(
                name_views(names@),
            ),
            Error::OutputFilePathDoesNotExist(path) => ErrorView::OutputFilePathDoesNotExist(
                path@,
            ),
        }
    }
}

/// Whether two lists hold the same names in the same order.
fn same_names(left: &Vec<String>, right: &Vec<String>) -> (same: bool)
    ensures
        same == (name_views(left@) == name_views(right@)),
{
    if left.len() != right.len() {
        assert(name_views(left@).len() != name_views(right@).len());
        return false;
    }
    let mut i: usize = 0;
    while i < left.len()
        invariant
            left.len() == right.len(),
            i <= left.len(),
            forall|j: int| 0 <= j < i ==> left@[j]@ == right@[j]@,
        decreases left.len() - i,
    {
        if !(left[i] == right[i]) {
            assert(name_views(left@)[i as int] != name_views(right@)[i as int]);
            return false;
        }
        i += 1;
    }
    assert(name_views(left@) =~= name_views(right@));
    true
}

impl PartialEq for Error {
    fn eq(&self, other: &Self) -> (equal: bool) {
        match (self, other) {
            (Error::ProjectDependenciesNotFound, Error::ProjectDependenciesNotFound) => true,
            (Error::DependencyGroupNotFound(left), Error::DependencyGroupNotFound(right)) => *left
                == *right,
            (Error::DependencyGroupConflict(left), Error::DependencyGroupConflict(right)) => {
                same_names(left, right)
            },
            (
                Error::OutputFilePathDoesNotExist(left),
                Error::OutputFilePathDoesNotExist(right),
            ) => *left == *right,
            _ => false,
        }
    }
}

impl vstd::std_specs::cmp::PartialEqSpecImpl for Error {
    open spec fn obeys_eq_spec() -> bool {
        true
    }

    open spec fn eq_spec(&self, other: &Self) -> bool {
        self@ == other@
    }
}

} // verus!
