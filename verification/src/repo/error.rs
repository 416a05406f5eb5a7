use vstd::prelude::*;

verus! {

/// An error of a repository operation, carrying the text of its cause.
#[derive(Debug)]
pub struct RepositoryError(pub String);

/// Turns an error of the git layer into a [`RepositoryError`].
pub trait ToRepositoryError {
    fn to_repository_error(&self) -> RepositoryError;
}

impl ToRepositoryError for git2::Error {
    /// The repository error carries the error's display text.
    fn to_repository_error(&self) -> (e: RepositoryError)
        ensures
            vstd::string::to_string_from_display_ensures::<git2::Error>(self, e.0),
    {
        RepositoryError(self.to_string())
    }
}

} // verus!
