use gh_gl_sync::config::{Config, Provider, ProviderConfig};
use gh_gl_sync::providers::github_provider::GithubProvider;
use gh_gl_sync::providers::{Project, ProviderType};

fn provider_config(host: &str) -> ProviderConfig {
    ProviderConfig {
        hostname: host.to_string(),
        https: true,
        username: format!("user@{}", host),
        token: format!("token-{}", host),
        private_ssh_key: "/keys/id".to_string(),
    }
}

#[test]
fn github_provider_takes_account_and_token() {
    let config = Config {
        provider: Provider { github: provider_config("github.com"), gitlab: provider_config("gitlab.com") },
    };
    let gh = GithubProvider::new(&config.provider.github);
    assert_eq!(gh.username(), "user@github.com");
    assert_eq!(gh.token(), "token-github.com");
}

#[test]
fn project_keeps_name_and_url() {
    let p = Project::new("group/project".to_string(), "git@gitlab.com:group/project.git".to_string());
    assert_eq!(p.name(), "group/project");
    assert_eq!(p.ssh_url(), "git@gitlab.com:group/project.git");
}

#[test]
fn provider_types_differ() {
    assert_ne!(ProviderType::GITHUB, ProviderType::GITLAB);
    assert_eq!(ProviderType::GITHUB, ProviderType::GITHUB);
}
