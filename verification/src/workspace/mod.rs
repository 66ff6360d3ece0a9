//! Workspaces: named directories under which projects live.

pub mod project;

use vstd::prelude::*;
use vstd::string::*;

verus! {

/// The name of a workspace. Two names are the same name where they hold the
/// same characters.
#[derive(Debug, Hash)]
pub struct WorkspaceName(pub String);

impl Clone for WorkspaceName {
    fn clone(&self) -> (copy: WorkspaceName)
        ensures
            copy@ == self@,
    {
        WorkspaceName(self.0.clone())
    }
}

impl PartialEq for WorkspaceName {
    fn eq(&self, other: &WorkspaceName) -> (same: bool) {
        self.0 == other.0
    }
}

impl Eq for WorkspaceName {

}

impl vstd::std_specs::cmp::PartialEqSpecImpl for WorkspaceName {
    open spec fn obeys_eq_spec() -> bool {
        true
    }

    open spec fn eq_spec(&self, other: &WorkspaceName) -> bool {
        self.0@ == other.0@
    }
}

impl View for WorkspaceName {
    type V = Seq<char>;

    open spec fn view(&self) -> Seq<char> {
        self.0@
    }
}

impl WorkspaceName {
    /// The name that holds the characters of `name`.
    pub fn new(name: &str) -> (workspace: WorkspaceName)
        ensures
            workspace@ == name@,
    {
        WorkspaceName(String::from_str(name))
    }

    /// The characters of the name.
    pub fn as_str(&self) -> (name: &str)
        ensures
            name@ == self@,
    {
        self.0.as_str()
    }
}

} // verus!
