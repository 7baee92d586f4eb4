//! The atomic units: a declared dependency, and a package as it is installed.

use vstd::prelude::*;
use vstd::string::*;
use crate::names::name_views;

verus! {

/// What a dependency is in contracts: its name and its requirement, as
/// character sequences.
pub ghost struct DependencyView {
    pub name: Seq<char>,
    pub requirement: Seq<char>,
}

impl DependencyView {
    /// The text of this dependency in an exported file, without the line end:
    /// the name alone where the requirement is empty, otherwise the name, one
    /// space and the requirement.
    pub open spec fn line(self) -> Seq<char> {
        if self.requirement.len() == 0 {
            self.name
        } else {
            self.name + seq![' '] + self.requirement
        }
    }
}

/// A declared dependency. The name identifies the package; the requirement is
/// an opaque constraint expression that is carried verbatim. A value is never
/// changed in place: operations produce new values.
#[derive(Debug)]
pub struct Dependency {
    name: String,
    requirement: String,
}

impl View for Dependency {
    type V = DependencyView;

    closed spec fn view(&self) -> DependencyView {
        DependencyView { name: self.name@, requirement: self.requirement@ }
    }
}

impl Clone for Dependency {
    fn clone(&self) -> (copy: Self)
        ensures
            copy == *self,
    {
        Dependency { name: self.name.clone(), requirement: self.requirement.clone() }
    }
}

impl PartialEq for Dependency {
    fn eq(&self, other: &Self) -> (equal: bool) {
        self.name == other.name && self.requirement == other.requirement
    }
}

impl vstd::std_specs::cmp::PartialEqSpecImpl for Dependency {
    open spec fn obeys_eq_spec() -> bool {
        true
    }

    open spec fn eq_spec(&self, other: &Self) -> bool {
        self@ == other@
    }
}

impl Dependency {
    pub fn new(name: &str, requirement: &str) -> (dependency: Dependency)
        ensures
            dependency@ == (DependencyView { name: name@, requirement: requirement@ }),
    {
        Dependency { name: name.to_owned(), requirement: requirement.to_owned() }
    }

    pub fn name(&self) -> (name: &str)
        ensures
            name@ == self@.name,
    {
        self.name.as_str()
    }

    pub fn requirement(&self) -> (requirement: &str)
        ensures
            requirement@ == self@.requirement,
    {
        self.requirement.as_str()
    }

    /// Whether the two dependencies name the same package. Matching across
    /// operations is by name only.
    pub fn same_name(&self, other: &Dependency) -> (same: bool)
        ensures
            same == (self@.name == other@.name),
    {
        self.name == other.name
    }

    /// Whether this dependency names the given installed package.
    pub fn names(&self, package: &Package) -> (same: bool)
        ensures
            same == (self@.name == package@.name),
    {
        self.name == package.name
    }

    /// The line that stands for this dependency in an exported file.
    pub fn to_string(&self) -> (line: String)
        ensures
            line@ == self@.line(),
    {
        let mut line = self.name.clone();
        if !self.requirement.as_str().is_empty() {
            proof {
                reveal_strlit(" ");
            }
            line.append(" ");
            line.append(self.requirement.as_str());
            assert(line@ =~= self@.line());
        }
        line
    }
}

/// What an installed package is in contracts.
pub ghost struct PackageView {
    pub name: Seq<char>,
    pub version: Seq<char>,
}

impl PackageView {
    /// The dependency that records exactly this installed version.
    pub open spec fn pin(self) -> DependencyView {
        DependencyView { name: self.name, requirement: seq!['=', '='] + self.version }
    }
}

/// A package as the environment reports it: its name and the version that is
/// installed.
#[derive(Debug)]
pub struct Package {
    name: String,
    version: String,
}

impl View for Package {
    type V = PackageView;

    closed spec fn view(&self) -> PackageView {
        PackageView { name: self.name@, version: self.version@ }
    }
}

impl Clone for Package {
    fn clone(&self) -> (copy: Self)
        ensures
            copy == *self,
    {
        Package { name: self.name.clone(), version: self.version.clone() }
    }
}

impl Package {
    pub fn new(name: &str, version: &str) -> (package: Package)
        ensures
            package@ == (PackageView { name: name@, version: version@ }),
    {
        Package { name: name.to_owned(), version: version.to_owned() }
    }

    pub fn name(&self) -> (name: &str)
        ensures
            name@ == self@.name,
    {
        self.name.as_str()
    }

    pub fn version(&self) -> (version: &str)
        ensures
            version@ == self@.version,
    {
        self.version.as_str()
    }

    /// Whether the package's name stands in the list.
    pub fn named_in(&self, names: &[String]) -> (found: bool)
        ensures
            found == name_views(names@).contains(self@.name),
    {
        let mut i: usize = 0;
        while i < names.len()
            invariant
                i <= names.len(),
                forall|j: int| 0 <= j < i ==> name_views(names@)[j] != self@.name,
            decreases names.len() - i,
        {
            if names[i] == self.name {
                assert(name_views(names@)[i as int] == self@.name);
                return true;
            }
            i += 1;
        }
        false
    }

    /// The dependency that pins this package to its installed version.
    pub fn pin(&self) -> (dependency: Dependency)
        ensures
            dependency@ == self@.pin(),
    {
        proof {
            reveal_strlit("==");
        }
        let mut requirement = "==".to_owned();
        requirement.append(self.version.as_str());
        assert(requirement@ =~= seq!['=', '='] + self.version@);
        Dependency { name: self.name.clone(), requirement }
    }
}

/// The views of a list of dependencies, in order.
pub open spec fn dependency_views(dependencies: Seq<Dependency>) -> Seq<DependencyView> {
    Seq::new(dependencies.len(), |i: int| dependencies[i]@)
}

/// The views of a list of dependencies that may be absent.
pub open spec fn optional_dependency_views(dependencies: Option<Vec<Dependency>>) -> Option<
    Seq<DependencyView>,
> {
    match dependencies {
        Some(dependencies) => Some(dependency_views(dependencies@)),
        None => None,
    }
}

/// The views of a list of packages, in order.
pub open spec fn package_views(packages: Seq<Package>) -> Seq<PackageView> {
    Seq::new(packages.len(), |i: int| packages[i]@)
}

} // verus!
