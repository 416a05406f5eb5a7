# gh_gl_sync

Keeps repositories on GitHub and GitLab in sync.

- `src/` is the verified library:
  - `repo/comparer.rs` compares two commit histories (`compare_commits`) and
    splits the result into one-sided commit lists (`partition_diffs`);
    `repo/diff_laws.rs` proves what the comparison promises of every input.
  - `repo/mod.rs` holds `SyncRepository` (naming of its directories, commit
    details); `repo/git.rs` and `repo/naming.rs` hold the contracts of the
    calls into git2, sha256 and uuid.
  - `config/` and `providers/` hold the configuration and provider types.
- `app/` is the service around it: HTTP routes, provider clients, git
  transfers, the database connection and YAML loading.
- `tests/` exercises the library.
