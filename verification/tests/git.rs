use ocli::git::{repo_name, repo_name_from_url, GitContext};

#[test]
fn repo_name_from_url_covers_d13_forms() {
    assert_eq!(
        repo_name_from_url("git@host:org/connected-module-item-api.git"),
        Some("connected-module-item-api".to_string())
    );
    assert_eq!(
        repo_name_from_url("https://host/org/connected-module-item-api.git"),
        Some("connected-module-item-api".to_string())
    );
    assert_eq!(repo_name_from_url("https://host/org/repo"), Some("repo".to_string()));
    assert_eq!(
        repo_name_from_url("https://host/org/repo/"),
        Some("repo".to_string()),
        "trailing slash tolerated"
    );
    assert_eq!(
        repo_name_from_url("https://host"),
        None,
        "no path → no name → caller falls back to folder basename"
    );
}

#[test]
fn repo_name_from_url_edge_forms() {
    assert_eq!(repo_name_from_url("/srv/git/vault-repo.git"), Some("vault-repo".to_string()));
    assert_eq!(repo_name_from_url("plain"), Some("plain".to_string()));
    assert_eq!(repo_name_from_url("git@host:.git"), None);
    assert_eq!(repo_name_from_url("https://host/org/.git/"), None);
}

#[test]
fn repo_name_falls_back_to_folder_basename() {
    assert_eq!(repo_name(Some("https://host/org/some-other-repo.git"), Some("vault-repo")), "some-other-repo");
    assert_eq!(repo_name(Some("https://host"), Some("vault-repo")), "vault-repo");
    assert_eq!(repo_name(None, Some("vault-repo")), "vault-repo");
    assert_eq!(repo_name(None, None), "unknown");
    let ctx = GitContext { branch: None, repo_name: None };
    assert!(ctx.branch.is_none() && ctx.repo_name.is_none());
}
