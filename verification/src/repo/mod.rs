pub mod commit;
pub mod comparer;
pub mod diff_laws;
pub mod error;
pub mod git;
pub mod naming;

use vstd::prelude::*;

use self::commit::Commit;
use self::error::{RepositoryError, ToRepositoryError};
use self::git::{commit_time, is_oid_text, parse_oid};
use self::naming::{is_sha256_text, is_uuid_v4_text, random_uuid_text, sha256_digest, sha256_hex};
use vstd::string::StringExecFns;

verus! {

/// A git repository to synchronise: its url, a hash that names its working
/// directories, the private ssh key used to reach it, and, once cloned, the
/// opened repository.
pub struct SyncRepository {
    pub url: String,
    pub hash_url: String,
    repo: Option<git2::Repository>,
    ssh_private_key_path: String,
}

impl SyncRepository {
    /// Whether the repository has been cloned (and opened).
    pub closed spec fn is_cloned(&self) -> bool {
        self.repo is Some
    }

    /// The url of the repository.
    pub closed spec fn url_text(&self) -> Seq<char> {
        self.url@
    }

    /// The hash that names the repository's directories.
    pub closed spec fn hash_text(&self) -> Seq<char> {
        self.hash_url@
    }

    /// The path of the private ssh key.
    pub closed spec fn key_path(&self) -> Seq<char> {
        self.ssh_private_key_path@
    }

    /// The hash that names the directories of a repository for `url`: the
    /// SHA-256 hex digest of the url followed by `salt`.
    pub fn url_hash(url: &str, salt: &str) -> (hash: String)
        ensures
            hash@ == sha256_hex(url@ + salt@),
            is_sha256_text(hash@),
    {
        let mut seed = String::from_str(url);
        seed.append(salt);
        sha256_digest(seed.as_str())
    }

    /// A repository for `url`, not cloned yet, whose directories are named
    /// by `hash_url`.
    pub fn from_parts(url: &str, ssh_private_key_path: &str, hash_url: String) -> (r: SyncRepository)
        ensures
            r.url_text() == url@,
            r.key_path() == ssh_private_key_path@,
            r.hash_text() == hash_url@,
            !r.is_cloned(),
    {
        SyncRepository {
            url: String::from_str(url),
            hash_url,
            repo: None,
            ssh_private_key_path: String::from_str(ssh_private_key_path),
        }
    }

    /// A repository for `url`, not cloned yet. Its `hash_url` is the SHA-256
    /// hex digest of the url followed by a fresh random UUID, so that two
    /// repositories for one url get different directories.
    pub fn new(url: &str, ssh_private_key_path: &str) -> (r: SyncRepository)
        ensures
            r.url_text() == url@,
            r.key_path() == ssh_private_key_path@,
            !r.is_cloned(),
            exists|u: Seq<char>| is_uuid_v4_text(u) && r.hash_text() == sha256_hex(url@ + u),
            is_sha256_text(r.hash_text()),
    {
        let uuid = random_uuid_text();
        let hash_url = Self::url_hash(url, uuid.as_str());
        Self::from_parts(url, ssh_private_key_path, hash_url)
    }

    /// The directory a working clone goes to: `repo_` and the hash.
    pub fn clone_dir_name(&self) -> (dir: String)
        ensures
            dir@ == "repo_"@ + self.hash_text(),
    {
        let mut dir = String::from_str("repo_");
        dir.append(self.hash_url.as_str());
        dir
    }

    /// The directory a bare mirror clone goes to: `repo_`, the hash and `_mirror`.
    pub fn mirror_dir_name(&self) -> (dir: String)
        ensures
            dir@ == "repo_"@ + self.hash_text() + "_mirror"@,
    {
        let mut dir = String::from_str("repo_");
        dir.append(self.hash_url.as_str());
        dir.append("_mirror");
        dir
    }

    /// The path of the private ssh key.
    pub fn ssh_private_key_path(&self) -> (path: &String)
        ensures
            path@ == self.key_path(),
    {
        &self.ssh_private_key_path
    }

    /// Records the repository that a clone opened.
    pub fn set_git_repository(&mut self, repo: git2::Repository)
        ensures
            final(self).is_cloned(),
            final(self).url_text() == old(self).url_text(),
            final(self).hash_text() == old(self).hash_text(),
            final(self).key_path() == old(self).key_path(),
    {
        self.repo = Some(repo);
    }

    /// The opened repository, once cloned.
    pub fn git_repository(&self) -> (repo: Option<&git2::Repository>)
        ensures
            repo is Some <==> self.is_cloned(),
    {
        self.repo.as_ref()
    }

    /// The details of the commit `id` from the outcome of looking it up in the
    /// repository: its commit time on success, the git error's text otherwise.
    pub fn commit_from_lookup(id: &String, lookup: Result<i64, git2::Error>) -> (commit: Result<Commit, RepositoryError>)
        ensures
            lookup matches Ok(t) ==> (commit matches Ok(c) && c.id@ == id@ && c.time == t),
            lookup matches Err(e) ==> (commit matches Err(r)
                && vstd::string::to_string_from_display_ensures::<git2::Error>(&e, r.0)),
    {
        match lookup {
            Ok(time) => Ok(Commit { id: id.clone(), time }),
            Err(e) => Err(e.to_repository_error()),
        }
    }

    /// The id and commit time of each given commit, in order. Fails with the
    /// git error of the first id that is not a valid object id or names no
    /// commit of the repository.
    pub fn get_commits_details(&self, commits: &Vec<String>) -> (details: Result<Vec<Commit>, RepositoryError>)
        requires
            self.is_cloned(),
        ensures
            details matches Ok(v) ==> {
                &&& v@.len() == commits@.len()
                &&& forall|i: int| 0 <= i < v@.len() ==> #[trigger] v@[i].id@ == commits@[i]@
                &&& forall|i: int| 0 <= i < commits@.len() ==> is_oid_text(#[trigger] commits@[i]@)
            },
            (exists|i: int| 0 <= i < commits@.len() && !is_oid_text(#[trigger] commits@[i]@)) ==> details is Err,
            commits@.len() == 0 ==> (details matches Ok(v) && v@.len() == 0),
    {
        let repo = self.repo.as_ref().unwrap();
        let mut details: Vec<Commit> = Vec::new();
        let mut i: usize = 0;
        while i < commits.len()
            invariant
                i <= commits@.len(),
                details@.len() == i,
                forall|k: int| 0 <= k < i ==> #[trigger] details@[k].id@ == commits@[k]@,
                forall|k: int| 0 <= k < i ==> is_oid_text(#[trigger] commits@[k]@),
            decreases commits@.len() - i,
        {
            let commit_id = &commits[i];
            let oid = match parse_oid(commit_id.as_str()) {
                Ok(oid) => oid,
                Err(e) => {
                    return Err(e.to_repository_error());
                },
            };
            let commit = match Self::commit_from_lookup(commit_id, commit_time(repo, oid)) {
                Ok(c) => c,
                Err(e) => {
                    return Err(e);
                },
            };
            details.push(commit);
            i = i + 1;
        }
        Ok(details)
    }
}

} // verus!
