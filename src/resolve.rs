use vstd::prelude::*;
use vstd::string::*;

use crate::config::{GiteaConfig, GithubConfig, VcsConfig};
use crate::error::HooverError;
use crate::text::{parse_remote_url, remote_parts};

verus! {

/// Fully resolved GitHub settings.
pub struct ResolvedGithub {
    pub token: String,
    pub owner: String,
    pub repo: String,
    pub workflow: Option<String>,
}

/// Fully resolved Gitea settings.
pub struct ResolvedGitea {
    pub url: String,
    pub token: String,
    pub owner: String,
    pub repo: String,
}

pub open spec fn opt_view(o: Option<String>) -> Option<Seq<char>> {
    match o {
        Some(s) => Some(s@),
        None => None,
    }
}

/// The first of two optional values that is present.
pub open spec fn first_of(a: Option<Seq<char>>, b: Option<Seq<char>>) -> Option<Seq<char>> {
    if a is Some {
        a
    } else {
        b
    }
}

/// What the remote URL, if any, says: `(base_url, owner, repo)`.
pub open spec fn remote_of(remote_url: Option<String>) -> Option<(Seq<char>, Seq<char>, Seq<char>)> {
    match remote_url {
        Some(u) => remote_parts(u@),
        None => None,
    }
}

fn first_present(a: Option<String>, b: Option<String>) -> (r: Option<String>)
    ensures
        opt_view(r) == first_of(opt_view(a), opt_view(b)),
{
    match a {
        Some(x) => Some(x),
        None => b,
    }
}

fn clone_opt(o: &Option<String>) -> (r: Option<String>)
    ensures
        opt_view(r) == opt_view(*o),
{
    match o {
        Some(s) => Some(s.clone()),
        None => None,
    }
}

fn parse_opt_remote(remote_url: &Option<String>) -> (r: Option<(String, String, String)>)
    ensures
        match remote_of(*remote_url) {
            None => r is None,
            Some((b, o, p)) => (r matches Some((rb, ro, rp)) && rb@ == b && ro@ == o && rp@ == p),
        },
{
    match remote_url {
        Some(u) => parse_remote_url(u.as_str()),
        None => None,
    }
}

/// The GitHub token set in the configuration, if any.
pub fn configured_github_token(config: &VcsConfig) -> (r: Option<String>)
    ensures
        opt_view(r) == match config.github {
            Some(g) => opt_view(g.token),
            None => None,
        },
{
    match &config.github {
        Some(g) => clone_opt(&g.token),
        None => None,
    }
}

/// The Gitea token set in the configuration, if any.
pub fn configured_gitea_token(config: &VcsConfig) -> (r: Option<String>)
    ensures
        opt_view(r) == match config.gitea {
            Some(g) => opt_view(g.token),
            None => None,
        },
{
    match &config.gitea {
        Some(g) => clone_opt(&g.token),
        None => None,
    }
}

/// Resolve the GitHub settings: the token from the configuration, else
/// `fallback_token` (found in the environment); owner and repo from the
/// configuration, else from the git remote URL `remote_url`.
pub fn resolve_github(
    config: &VcsConfig,
    fallback_token: Option<String>,
    remote_url: Option<String>,
) -> (r: Result<ResolvedGithub, HooverError>)
    ensures
        ({
            let gh = config.github;
            let token = first_of(
                match gh {
                    Some(g) => opt_view(g.token),
                    None => None,
                },
                opt_view(fallback_token),
            );
            let remote = remote_of(remote_url);
            let owner = first_of(
                match gh {
                    Some(g) => opt_view(g.owner),
                    None => None,
                },
                match remote {
                    Some((_, o, _)) => Some(o),
                    None => None,
                },
            );
            let repo = first_of(
                match gh {
                    Some(g) => opt_view(g.repo),
                    None => None,
                },
                match remote {
                    Some((_, _, p)) => Some(p),
                    None => None,
                },
            );
            &&& (r is Ok <==> token is Some && owner is Some && repo is Some)
            &&& (r matches Ok(res) ==> Some(res.token@) == token && Some(res.owner@) == owner
                && Some(res.repo@) == repo && opt_view(res.workflow) == match gh {
                Some(g) => opt_view(g.workflow),
                None => None,
            })
            &&& (r matches Err(e) ==> e is Config)
        }),
{
    let gh: Option<&GithubConfig> = match &config.github {
        Some(g) => Some(g),
        None => None,
    };
    let cfg_token = match gh {
        Some(g) => clone_opt(&g.token),
        None => None,
    };
    let token = match first_present(cfg_token, fallback_token) {
        Some(t) => t,
        None => {
            return Err(
                HooverError::Config(
                    "GitHub token not found: set github.token in config, or set GITHUB_TOKEN / GH_TOKEN, or run `gh auth login`".to_string(),
                ),
            );
        },
    };
    let parsed = parse_opt_remote(&remote_url);
    let (remote_owner, remote_repo) = match parsed {
        Some((_, o, p)) => (Some(o), Some(p)),
        None => (None, None),
    };
    let cfg_owner = match gh {
        Some(g) => clone_opt(&g.owner),
        None => None,
    };
    let owner = match first_present(cfg_owner, remote_owner) {
        Some(o) => o,
        None => {
            return Err(
                HooverError::Config(
                    "GitHub owner not found: set github.owner in config or ensure the git remote URL is parseable".to_string(),
                ),
            );
        },
    };
    let cfg_repo = match gh {
        Some(g) => clone_opt(&g.repo),
        None => None,
    };
    let repo = match first_present(cfg_repo, remote_repo) {
        Some(p) => p,
        None => {
            return Err(
                HooverError::Config(
                    "GitHub repo not found: set github.repo in config or ensure the git remote URL is parseable".to_string(),
                ),
            );
        },
    };
    let workflow = match gh {
        Some(g) => clone_opt(&g.workflow),
        None => None,
    };
    Ok(ResolvedGithub { token, owner, repo, workflow })
}

/// Resolve the Gitea settings: the token from the configuration, else
/// `fallback_token`; URL, owner and repo from the configuration, else from the
/// git remote URL `remote_url`.
pub fn resolve_gitea(
    config: &VcsConfig,
    fallback_token: Option<String>,
    remote_url: Option<String>,
) -> (r: Result<ResolvedGitea, HooverError>)
    ensures
        ({
            let gt = config.gitea;
            let token = first_of(
                match gt {
                    Some(g) => opt_view(g.token),
                    None => None,
                },
                opt_view(fallback_token),
            );
            let remote = remote_of(remote_url);
            let url = first_of(
                match gt {
                    Some(g) => opt_view(g.url),
                    None => None,
                },
                match remote {
                    Some((b, _, _)) => Some(b),
                    None => None,
                },
            );
            let owner = first_of(
                match gt {
                    Some(g) => opt_view(g.owner),
                    None => None,
                },
                match remote {
                    Some((_, o, _)) => Some(o),
                    None => None,
                },
            );
            let repo = first_of(
                match gt {
                    Some(g) => opt_view(g.repo),
                    None => None,
                },
                match remote {
                    Some((_, _, p)) => Some(p),
                    None => None,
                },
            );
            &&& (r is Ok <==> token is Some && url is Some && owner is Some && repo is Some)
            &&& (r matches Ok(res) ==> Some(res.token@) == token && Some(res.url@) == url
                && Some(res.owner@) == owner && Some(res.repo@) == repo)
            &&& (r matches Err(e) ==> e is Config)
        }),
{
    let gt: Option<&GiteaConfig> = match &config.gitea {
        Some(g) => Some(g),
        None => None,
    };
    let cfg_token = match gt {
        Some(g) => clone_opt(&g.token),
        None => None,
    };
    let token = match first_present(cfg_token, fallback_token) {
        Some(t) => t,
        None => {
            return Err(
                HooverError::Config(
                    "Gitea token not found: set gitea.token in config or set GITEA_TOKEN".to_string(),
                ),
            );
        },
    };
    let parsed = parse_opt_remote(&remote_url);
    let (remote_base, remote_owner, remote_repo) = match parsed {
        Some((b, o, p)) => (Some(b), Some(o), Some(p)),
        None => (None, None, None),
    };
    let cfg_url = match gt {
        Some(g) => clone_opt(&g.url),
        None => None,
    };
    let url = match first_present(cfg_url, remote_base) {
        Some(u) => u,
        None => {
            return Err(
                HooverError::Config(
                    "Gitea URL not found: set gitea.url in config or ensure the git remote URL is parseable".to_string(),
                ),
            );
        },
    };
    let cfg_owner = match gt {
        Some(g) => clone_opt(&g.owner),
        None => None,
    };
    let owner = match first_present(cfg_owner, remote_owner) {
        Some(o) => o,
        None => {
            return Err(
                HooverError::Config(
                    "Gitea owner not found: set gitea.owner in config or ensure the git remote URL is parseable".to_string(),
                ),
            );
        },
    };
    let cfg_repo = match gt {
        Some(g) => clone_opt(&g.repo),
        None => None,
    };
    let repo = match first_present(cfg_repo, remote_repo) {
        Some(p) => p,
        None => {
            return Err(
                HooverError::Config(
                    "Gitea repo not found: set gitea.repo in config or ensure the git remote URL is parseable".to_string(),
                ),
            );
        },
    };
    Ok(ResolvedGitea { url, token, owner, repo })
}

/// The token for pushing over HTTPS: GitHub's from the configuration, else
/// Gitea's, else `fallback_token` (found in the environment).
pub fn get_push_token(config: &VcsConfig, fallback_token: Option<String>) -> (r: Option<String>)
    ensures
        opt_view(r) == first_of(
            match config.github {
                Some(g) => opt_view(g.token),
                None => None,
            },
            first_of(
                match config.gitea {
                    Some(g) => opt_view(g.token),
                    None => None,
                },
                opt_view(fallback_token),
            ),
        ),
{
    let gh = configured_github_token(config);
    let gt = configured_gitea_token(config);
    first_present(gh, first_present(gt, fallback_token))
}

} // verus!
