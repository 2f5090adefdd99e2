use gclone::config::{get_config, Config};
use gclone::repo::{FullUrl, Repo, RepoError, RepoUrl, ShortHandUrl};

fn default_config() -> Config {
    Config::new("base".to_string())
}

#[test]
fn test_https_url() {
    let url = "https://github.com/user/repo.git";
    let conf = default_config();
    let expected_repo = Repo {
        url: RepoUrl::Https(FullUrl {
            raw: url.to_string(),
            domain: "github.com".to_string(),
            path: "/user/repo.git".to_string(),
        }),
    };
    assert_eq!(Repo::parse(url, &conf, false).unwrap(), expected_repo);
}

#[test]
fn test_https_url_domain() {
    let url = "https://github.com/user/repo.git";
    let conf = default_config();
    assert_eq!(
        Repo::parse(url, &conf, false).unwrap().get_domain(),
        "github.com".to_string()
    );
}

#[test]
fn test_https_url_path() {
    let url = "https://github.com/user/repo.git";
    let conf = default_config();
    let expected_path = "user/repo.git";
    assert_eq!(
        Repo::parse(url, &conf, false).unwrap().get_sub_path(),
        expected_path
    );
}

#[test]
fn test_https_url_clone_url() {
    let url = "https://github.com/user/repo.git";
    let conf = default_config();
    assert_eq!(
        Repo::parse(url, &conf, false).unwrap().get_clone_url(),
        "https://github.com/user/repo.git"
    );
}

#[test]
fn test_ssh_url() {
    let url = "ssh://aur@aur.archlinux.org/user/repo.git";
    let conf = default_config();
    let expected_repo = Repo {
        url: RepoUrl::SSH(FullUrl {
            raw: url.to_string(),
            domain: "aur.archlinux.org".to_string(),
            path: "/user/repo.git".to_string(),
        }),
    };
    assert_eq!(Repo::parse(url, &conf, false).unwrap(), expected_repo);
}

#[test]
fn test_ssh_url_domain() {
    let url = "ssh://aur@aur.archlinux.org/user/repo.git";
    let conf = default_config();
    assert_eq!(
        Repo::parse(url, &conf, false).unwrap().get_domain(),
        "aur.archlinux.org"
    );
}

#[test]
fn test_ssh_url_clone_url() {
    let url = "ssh://aur@aur.archlinux.org/user/repo.git";
    let conf = default_config();
    assert_eq!(
        Repo::parse(url, &conf, false).unwrap().get_clone_url(),
        "ssh://aur@aur.archlinux.org/user/repo.git"
    );
}

#[test]
fn test_ssh_url_path() {
    let url = "ssh://aur@aur.archlinux.org/user/repo.git";
    let conf = default_config();
    let expected_path = "user/repo.git";
    assert_eq!(
        Repo::parse(url, &conf, false).unwrap().get_sub_path(),
        expected_path
    );
}

#[test]
fn test_short_ssh_github() {
    let url = "git@github.com:user/repo.git";
    let conf = default_config();
    let expected_val = Repo {
        url: RepoUrl::Short(ShortHandUrl {
            is_https: false,
            domain: "github.com".to_string(),
            path: "user/repo.git".to_string(),
        }),
    };
    assert_eq!(Repo::parse(url, &conf, false).unwrap(), expected_val);
}

#[test]
fn test_short_ssh_github_no_user() {
    let url = "github.com:user/repo.git";
    let conf = default_config();
    let expected_val = Repo {
        url: RepoUrl::Short(ShortHandUrl {
            is_https: false,
            domain: "github.com".to_string(),
            path: "user/repo.git".to_string(),
        }),
    };
    assert_eq!(Repo::parse(url, &conf, false).unwrap(), expected_val);
}

#[test]
fn test_short_ssh_github_clone_url() {
    let url = "git@github.com:user/repo.git";
    let conf = default_config();
    assert_eq!(
        Repo::parse(url, &conf, false).unwrap().get_clone_url(),
        "git@github.com:user/repo.git"
    );
}

#[test]
fn test_simple_url() {
    let url = "user/repo";
    let config = default_config();
    let expected_val = Repo {
        url: RepoUrl::Short(ShortHandUrl {
            is_https: config.get_is_https(),
            domain: config.get_domain().clone(),
            path: "user/repo".to_string(),
        }),
    };
    assert_eq!(Repo::parse(url, &config, false).unwrap(), expected_val);
}

#[test]
fn test_simple_url_domain() {
    let url = "user/repo";
    let conf = default_config();
    assert_eq!(
        Repo::parse(url, &conf, false).unwrap().get_domain(),
        conf.get_domain().clone()
    );
}

#[test]
fn test_simple_url_get_clone_url() {
    let url = "user/repo";
    let conf = default_config();
    assert_eq!(
        Repo::parse(url, &conf, false).unwrap().get_clone_url(),
        "git@github.com:user/repo"
    );
}

#[test]
fn test_simple_url_get_clone_url_https() {
    let url = "user/repo";
    let conf = default_config();
    let mut this_repo = Repo::parse(url, &conf, false).unwrap();
    match this_repo.url {
        RepoUrl::Short(ref mut short) => {
            short.is_https = true;
        }
        _ => {
            assert!(false, "URL should be parsed to shorthand url");
        }
    }
    assert_eq!(this_repo.get_clone_url(), "https://github.com/user/repo");
}

#[test]
fn test_simple_url_path() {
    let url = "user/repo";
    let conf = default_config();
    assert_eq!(Repo::parse(url, &conf, false).unwrap().get_sub_path(), "user/repo");
}

#[test]
fn test_simple_url_multiple() {
    let url = "user/repo/dir1/dir2";
    let config = default_config();
    let expected_val = Repo {
        url: RepoUrl::Short(ShortHandUrl {
            is_https: config.get_is_https(),
            domain: config.get_domain().clone(),
            path: "user/repo/dir1/dir2".to_string(),
        }),
    };
    assert_eq!(Repo::parse(url, &config, false).unwrap(), expected_val);
}

#[test]
fn test_simple_url_multiple_path() {
    let url = "user/repo/dir1/dir2";
    let conf = default_config();
    assert_eq!(
        Repo::parse(url, &conf, false).unwrap().get_sub_path(),
        "user/repo/dir1/dir2"
    );
}

#[test]
fn test_malformed_https_url() {
    let conf = default_config();
    assert_eq!(
        Repo::parse("https://", &conf, false),
        Err(RepoError::MalformedUrl)
    );
}

#[test]
fn test_malformed_ssh_url() {
    let conf = default_config();
    assert_eq!(
        Repo::parse("ssh://with space/x", &conf, false),
        Err(RepoError::MalformedUrl)
    );
}

#[test]
fn test_existing_path_reinterprets_domain() {
    let url = "myhost.org/user/repo";
    let conf = default_config();
    let expected_val = Repo {
        url: RepoUrl::Short(ShortHandUrl {
            is_https: false,
            domain: "myhost.org".to_string(),
            path: "user/repo".to_string(),
        }),
    };
    assert_eq!(Repo::parse(url, &conf, true).unwrap(), expected_val);
}

#[test]
fn test_empty_shorthand_domain_rejected() {
    let conf = default_config();
    assert_eq!(Repo::parse(":x", &conf, false), Err(RepoError::MalformedUrl));
}

#[test]
fn test_trailing_at_domain_rejected() {
    let conf = default_config();
    assert_eq!(Repo::parse("a@:x", &conf, false), Err(RepoError::MalformedUrl));
}

#[test]
fn test_sub_path_strips_leading_slash() {
    let conf = default_config();
    let repo = Repo::parse("host:/a", &conf, false).unwrap();
    assert_eq!(repo.get_domain(), "host");
    assert_eq!(repo.get_sub_path(), "a");
}

#[test]
fn test_sub_path_strips_all_leading_slashes() {
    let conf = default_config();
    let repo = Repo::parse("https://github.com//a", &conf, false).unwrap();
    assert_eq!(repo.get_sub_path(), "a");
}

#[test]
fn test_bare_input_leading_slash() {
    let conf = default_config();
    let repo = Repo::parse("/x", &conf, false).unwrap();
    assert_eq!(repo.get_domain(), "github.com");
    assert_eq!(repo.get_sub_path(), "x");
}

#[test]
fn test_reinterpret_skips_empty_first_segment() {
    let conf = default_config();
    let repo = Repo::parse("/x", &conf, true).unwrap();
    assert_eq!(repo.get_domain(), "github.com");
}

#[test]
fn test_empty_default_domain_rejected() {
    let conf = get_config("base".to_string(), Some("defaultDomain = \"\"\n"));
    assert_eq!(conf.get_domain(), "");
    assert_eq!(
        Repo::parse("user/repo", &conf, false),
        Err(RepoError::MalformedUrl)
    );
}

#[test]
fn test_fs_path_strips_git_suffix() {
    let conf = default_config();
    let repo = Repo::parse("host:user/repo.git", &conf, false).unwrap();
    assert_eq!(repo.get_fs_path(&conf), "base/host/user/repo");
}

#[test]
fn test_fs_path_plain() {
    let conf = default_config();
    let repo = Repo::parse("host:user/repo", &conf, false).unwrap();
    assert_eq!(repo.get_fs_path(&conf), "base/host/user/repo");
}

#[test]
fn test_fs_path_git_only_segment_kept() {
    let conf = default_config();
    let repo = Repo::parse("host:user/.git", &conf, false).unwrap();
    assert_eq!(repo.get_fs_path(&conf), "base/host/user/.git");
}

#[test]
fn test_fs_path_strips_git_from_last_segment_only() {
    let conf = default_config();
    let repo = Repo::parse("host:user.git/repo", &conf, false).unwrap();
    assert_eq!(repo.get_fs_path(&conf), "base/host/user.git/repo");
}
