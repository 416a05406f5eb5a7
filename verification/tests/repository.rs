use gh_gl_sync::repo::error::{RepositoryError, ToRepositoryError};
use gh_gl_sync::repo::SyncRepository;

fn is_lower_hex(s: &str) -> bool {
    s.chars().all(|c| c.is_ascii_digit() || ('a'..='f').contains(&c))
}

#[test]
fn new_repository_keeps_url_and_hashes_it() {
    let repo = SyncRepository::new("git@github.com:owner/project.git", "/keys/id_ed25519");
    assert_eq!(repo.url, "git@github.com:owner/project.git");
    assert_eq!(repo.ssh_private_key_path(), "/keys/id_ed25519");
    assert_eq!(repo.hash_url.len(), 64);
    assert!(is_lower_hex(&repo.hash_url));
    assert!(repo.git_repository().is_none());
}

#[test]
fn two_repositories_of_one_url_get_different_hashes() {
    let a = SyncRepository::new("https://example.org/x.git", "k");
    let b = SyncRepository::new("https://example.org/x.git", "k");
    assert_ne!(a.hash_url, b.hash_url);
}

#[test]
fn directory_names_follow_the_hash() {
    let repo = SyncRepository::new("u", "k");
    assert_eq!(repo.clone_dir_name(), format!("repo_{}", repo.hash_url));
    assert_eq!(repo.mirror_dir_name(), format!("repo_{}_mirror", repo.hash_url));
    assert_ne!(repo.clone_dir_name(), repo.mirror_dir_name());
}

#[test]
fn git_error_becomes_repository_error_with_its_text() {
    let e = git2::Error::from_str("boom");
    let RepositoryError(text) = e.to_repository_error();
    assert_eq!(text, "boom");
}

fn scratch_repository(dir: &str) -> (SyncRepository, String, i64) {
    let git = git2::Repository::init(dir).unwrap();
    let sig = git2::Signature::new("t", "t@example.org", &git2::Time::new(1_700_000_000, 0)).unwrap();
    let tree_id = git.treebuilder(None).unwrap().write().unwrap();
    let oid = {
        let tree = git.find_tree(tree_id).unwrap();
        git.commit(None, &sig, &sig, "first", &tree, &[]).unwrap()
    };
    let mut repo = SyncRepository::new("u", "k");
    repo.set_git_repository(git);
    (repo, oid.to_string(), 1_700_000_000)
}

#[test]
fn commit_details_of_known_commits() {
    let (repo, id, time) = scratch_repository("/tmp/gh_gl_sync_details_known");
    let details = repo.get_commits_details(&vec![id.clone(), id.clone()]).unwrap();
    assert_eq!(details.len(), 2);
    assert_eq!(details[0].id, id);
    assert_eq!(details[0].time, time);
    assert_eq!(details[1].id, id);
    let none = repo.get_commits_details(&vec![]).unwrap();
    assert!(none.is_empty());
}

#[test]
fn commit_details_reject_malformed_ids() {
    let (repo, id, _) = scratch_repository("/tmp/gh_gl_sync_details_malformed");
    assert!(repo.get_commits_details(&vec![id.clone(), "not-an-oid".to_string()]).is_err());
    assert!(repo.get_commits_details(&vec!["".to_string()]).is_err());
    assert!(repo.get_commits_details(&vec!["a".repeat(41)]).is_err());
}

#[test]
fn commit_details_reject_unknown_commits() {
    let (repo, _, _) = scratch_repository("/tmp/gh_gl_sync_details_unknown");
    assert!(repo.get_commits_details(&vec!["0123456789abcdef0123456789abcdef01234567".to_string()]).is_err());
}

#[test]
fn url_hash_is_the_sha256_of_url_and_salt() {
    assert_eq!(
        SyncRepository::url_hash("hel", "lo"),
        "2cf24dba5fb0a30e26e83b2ac5b9e29e1b161e5c1fa7425e73043362938b9824"
    );
    assert_eq!(SyncRepository::url_hash("hello", ""), SyncRepository::url_hash("", "hello"));
}

#[test]
fn from_parts_keeps_the_parts() {
    let repo = SyncRepository::from_parts("u", "k", "abc".to_string());
    assert_eq!(repo.url, "u");
    assert_eq!(repo.hash_url, "abc");
    assert_eq!(repo.ssh_private_key_path(), "k");
    assert_eq!(repo.clone_dir_name(), "repo_abc");
    assert_eq!(repo.mirror_dir_name(), "repo_abc_mirror");
    assert!(repo.git_repository().is_none());
}

#[test]
fn commit_from_lookup_takes_time_or_error() {
    let id = "0123abcd".to_string();
    let c = SyncRepository::commit_from_lookup(&id, Ok(42)).unwrap();
    assert_eq!(c.id, id);
    assert_eq!(c.time, 42);
    match SyncRepository::commit_from_lookup(&id, Err(git2::Error::from_str("gone"))) {
        Err(RepositoryError(text)) => assert_eq!(text, "gone"),
        Ok(_) => panic!("a failed lookup must fail"),
    }
}
