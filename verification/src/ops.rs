//! The operations. Each one decides and computes; the caller reads the
//! manifest, runs the installer and the tools, and writes the files.

pub mod export;
pub mod lint;
pub mod update;

pub use self::export::{export_dependencies_to_file, ExportOptions};
pub use self::lint::{lint_project, LintOptions};
pub use self::update::{update_project_dependencies, UpdateOptions};

use vstd::prelude::*;
use crate::names::{name_views, optional_name_views};

verus! {

/// Options that are handed on to the installer.
#[derive(Debug)]
pub struct InstallOptions {
    /// Further arguments for the installer, passed on verbatim.
    pub values: Option<Vec<String>>,
}

impl View for InstallOptions {
    type V = Option<Seq<Seq<char>>>;

    open spec fn view(&self) -> Option<Seq<Seq<char>>> {
        optional_name_views(self.values)
    }
}

impl Clone for InstallOptions {
    fn clone(&self) -> (copy: Self)
        ensures
            copy@ == self@,
    {
        InstallOptions {
            values: match &self.values {
                Some(values) => {
                    let copy = values.clone();
                    assert(name_views(copy@) =~= name_views(values@));
                    Some(copy)
                },
                None => None,
            },
        }
    }
}

} // verus!
