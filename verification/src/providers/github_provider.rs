use vstd::prelude::*;

use crate::config::ProviderConfig;

verus! {

/// The GitHub provider: the account and the personal token it acts with.
pub struct GithubProvider {
    username: String,
    token: String,
}

impl GithubProvider {
    /// The account the provider acts as.
    pub closed spec fn username_text(&self) -> Seq<char> {
        self.username@
    }

    /// The personal access token the provider uses.
    pub closed spec fn token_text(&self) -> Seq<char> {
        self.token@
    }

    /// A provider that acts with the account and token of `config`.
    pub fn new(config: &ProviderConfig) -> (p: GithubProvider)
        ensures
            p.username_text() == config.username@,
            p.token_text() == config.token@,
    {
        GithubProvider { username: config.username.clone(), token: config.token.clone() }
    }

    /// The account the provider acts as.
    pub fn username(&self) -> (name: &String)
        ensures
            name@ == self.username_text(),
    {
        &self.username
    }

    /// The personal access token the provider uses.
    pub fn token(&self) -> (token: &String)
        ensures
            token@ == self.token_text(),
    {
        &self.token
    }
}

} // verus!
