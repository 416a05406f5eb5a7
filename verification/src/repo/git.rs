use vstd::prelude::*;

verus! {

#[verifier::external_type_specification]
#[verifier::external_body]
pub struct ExGitRepository(git2::Repository);

#[verifier::external_type_specification]
#[verifier::external_body]
pub struct ExGitError(git2::Error);

#[verifier::external_type_specification]
#[verifier::external_body]
pub struct ExGitOid(git2::Oid);

/// A hexadecimal digit, in either case.
pub open spec fn is_hex_digit(c: char) -> bool {
    ('0' <= c && c <= '9') || ('a' <= c && c <= 'f') || ('A' <= c && c <= 'F')
}

/// Text that git reads as an object id: one to forty hexadecimal digits.
pub open spec fn is_oid_text(s: Seq<char>) -> bool {
    &&& 1 <= s.len() <= 40
    &&& forall|i: int| 0 <= i < s.len() ==> is_hex_digit(#[trigger] s[i])
}

/// Parses an object id with `git2::Oid::from_str`. The crate documents, and
/// libgit2's `git_oid_fromstrn` implements, that parsing fails exactly when
/// the text is empty, longer than forty hex digits, or holds a character
/// that is not a hex digit; this is all the contract claims.
#[verifier::external_body]
pub(crate) fn parse_oid(id: &str) -> (oid: Result<git2::Oid, git2::Error>)
    ensures
        oid is Ok <==> is_oid_text(id@),
{
    git2::Oid::from_str(id)
}

/// Looks a commit up with `git2::Repository::find_commit` and reads its
/// commit time (`Commit::time`, `Time::seconds`). Whether the commit exists,
/// and its time, depend on what is on disk, so nothing is claimed of the
/// result.
#[verifier::external_body]
pub(crate) fn commit_time(repo: &git2::Repository, oid: git2::Oid) -> (time: Result<i64, git2::Error>) {
    match repo.find_commit(oid) {
        Ok(commit) => Ok(commit.time().seconds()),
        Err(e) => Err(e),
    }
}

} // verus!
