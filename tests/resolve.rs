use hoover::config::{GiteaConfig, GithubConfig, VcsConfig};
use hoover::resolve::{get_push_token, resolve_gitea, resolve_github};
use hoover::text::parse_remote_url;

#[test]
fn parse_ssh_url() {
    let (base, owner, repo) = parse_remote_url("git@github.com:erikh/hoover.git").expect("should parse");
    assert_eq!(base, "https://github.com");
    assert_eq!(owner, "erikh");
    assert_eq!(repo, "hoover");
}

#[test]
fn parse_https_url() {
    let (base, owner, repo) =
        parse_remote_url("https://github.com/erikh/hoover.git").expect("should parse");
    assert_eq!(base, "https://github.com");
    assert_eq!(owner, "erikh");
    assert_eq!(repo, "hoover");
}

#[test]
fn parse_https_no_dot_git() {
    let (base, owner, repo) = parse_remote_url("https://github.com/erikh/hoover").expect("should parse");
    assert_eq!(base, "https://github.com");
    assert_eq!(owner, "erikh");
    assert_eq!(repo, "hoover");
}

#[test]
fn parse_ssh_no_dot_git() {
    let (_, owner, repo) = parse_remote_url("git@github.com:erikh/hoover").expect("should parse");
    assert_eq!(owner, "erikh");
    assert_eq!(repo, "hoover");
}

#[test]
fn parse_invalid_url() {
    assert!(parse_remote_url("not-a-url").is_none());
    assert!(parse_remote_url("https://github.com").is_none());
    assert!(parse_remote_url("https://github.com/").is_none());
    assert!(parse_remote_url("git@github.com:").is_none());
}

#[test]
fn parse_gitea_https_url() {
    let (base, owner, repo) =
        parse_remote_url("https://gitea.example.com/myorg/myrepo.git").expect("should parse");
    assert_eq!(base, "https://gitea.example.com");
    assert_eq!(owner, "myorg");
    assert_eq!(repo, "myrepo");
}

#[test]
fn parse_rejects_extra_segments_and_keeps_http() {
    assert!(parse_remote_url("https://host/a/b/c").is_none());
    assert!(parse_remote_url("https://host//repo").is_none());
    let (base, _, _) = parse_remote_url("http://host/a/b").expect("should parse");
    assert_eq!(base, "http://host");
    assert!(parse_remote_url("git@host:owner/").is_none());
    assert!(parse_remote_url("git@host:ownerrepo").is_none());
}

fn vcs(github: Option<GithubConfig>, gitea: Option<GiteaConfig>) -> VcsConfig {
    let mut v = VcsConfig::default();
    v.github = github;
    v.gitea = gitea;
    v
}

#[test]
fn github_config_wins_over_remote() {
    let gh = GithubConfig {
        token: Some("cfg-token".to_string()),
        owner: Some("me".to_string()),
        repo: None,
        workflow: Some("ci.yml".to_string()),
    };
    let r = resolve_github(
        &vcs(Some(gh), None),
        Some("env-token".to_string()),
        Some("git@github.com:other/notes.git".to_string()),
    )
    .unwrap_or_else(|e| panic!("{}", e.message()));
    assert_eq!(r.token, "cfg-token");
    assert_eq!(r.owner, "me");
    assert_eq!(r.repo, "notes");
    assert_eq!(r.workflow.as_deref(), Some("ci.yml"));
}

#[test]
fn github_missing_token_is_config_error() {
    let r = resolve_github(&vcs(None, None), None, Some("git@github.com:a/b".to_string()));
    assert!(matches!(r, Err(hoover::error::HooverError::Config(_))));
    let r = resolve_github(&vcs(None, None), Some("t".to_string()), Some("nonsense".to_string()));
    assert!(matches!(r, Err(hoover::error::HooverError::Config(_))));
}

#[test]
fn gitea_from_remote() {
    let r = resolve_gitea(
        &vcs(None, None),
        Some("tok".to_string()),
        Some("https://gitea.example.com/myorg/myrepo.git".to_string()),
    )
    .unwrap_or_else(|e| panic!("{}", e.message()));
    assert_eq!(r.url, "https://gitea.example.com");
    assert_eq!(r.owner, "myorg");
    assert_eq!(r.repo, "myrepo");
    assert_eq!(r.token, "tok");
}

#[test]
fn push_token_order() {
    let gh = GithubConfig { token: Some("a".to_string()), ..GithubConfig::default() };
    let gt = GiteaConfig { token: Some("b".to_string()), ..GiteaConfig::default() };
    assert_eq!(get_push_token(&vcs(Some(gh), Some(gt.clone())), Some("c".to_string())).as_deref(), Some("a"));
    assert_eq!(get_push_token(&vcs(None, Some(gt)), Some("c".to_string())).as_deref(), Some("b"));
    assert_eq!(get_push_token(&vcs(None, None), Some("c".to_string())).as_deref(), Some("c"));
    assert_eq!(get_push_token(&vcs(None, None), None), None);
}
