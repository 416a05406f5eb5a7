pub mod github_provider;

use vstd::prelude::*;

verus! {

/// The hosting providers that are kept in sync.
#[derive(Debug, PartialEq, Eq, Hash, Clone, Copy, Structural)]
pub enum ProviderType {
    GITLAB,
    GITHUB,
}

/// A project (repository) on a provider: its name and its ssh clone url.
#[derive(Debug, PartialEq, Eq, Hash)]
pub struct Project {
    name: String,
    ssh_url: String,
}

impl Project {
    /// The name of the project.
    pub closed spec fn name_text(&self) -> Seq<char> {
        self.name@
    }

    /// The ssh clone url of the project.
    pub closed spec fn ssh_url_text(&self) -> Seq<char> {
        self.ssh_url@
    }

    /// A project with the given name and ssh clone url.
    pub fn new(name: String, ssh_url: String) -> (p: Project)
        ensures
            p.name_text() == name@,
            p.ssh_url_text() == ssh_url@,
    {
        Project { name, ssh_url }
    }

    /// The name of the project.
    pub fn name(&self) -> (name: &String)
        ensures
            name@ == self.name_text(),
    {
        &self.name
    }

    /// The ssh clone url of the project.
    pub fn ssh_url(&self) -> (url: &String)
        ensures
            url@ == self.ssh_url_text(),
    {
        &self.ssh_url
    }
}

/// An error reported by a provider, carrying its text.
#[derive(Debug)]
pub struct ProviderError(pub String);

} // verus!
