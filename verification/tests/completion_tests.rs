use gclone::completion::{get_matches, hint_sorter, Dir};
use gclone::config::Config;
use std::cmp::Ordering;

fn d(name: &str, subdirs: Vec<Dir>) -> Dir {
    Dir {
        name: name.to_string(),
        subdirs,
    }
}

/// The workspace the completion tests run against:
/// aur.archlinux.org/gclone, github.com/allonsy/gclone/{src/code,test},
/// gitlab.com/allonsy/repo; github.com is the default domain.
fn testing_tlds() -> Vec<Dir> {
    vec![
        d("aur.archlinux.org", vec![d("gclone", vec![])]),
        d(
            "github.com",
            vec![d(
                "allonsy",
                vec![d(
                    "gclone",
                    vec![d("src", vec![d("code", vec![])]), d("test", vec![])],
                )],
            )],
        ),
        d("gitlab.com", vec![d("allonsy", vec![d("repo", vec![])])]),
    ]
}

fn get_testing_config() -> Config {
    Config::new("test/completions".to_string())
}

fn conv_matches(expected_matches: Vec<(&str, &str)>) -> Vec<(String, String)> {
    let mut new_matches = Vec::new();
    for (a, b) in expected_matches {
        new_matches.push((a.to_string(), b.to_string()));
    }
    new_matches
}

#[test]
fn test_full_path() {
    let conf = get_testing_config();
    let matches = get_matches(&conf, "gitlab.com:allonsy/", &testing_tlds());
    let expected_matches = vec![("gitlab.com:allonsy/repo/", "repo/")];
    assert_eq!(matches, conv_matches(expected_matches));
}

#[test]
fn test_full_path_incomplete() {
    let conf = get_testing_config();
    let matches = get_matches(&conf, "gitlab.com:allonsy/re", &testing_tlds());
    let expected_matches = vec![("gitlab.com:allonsy/repo/", "repo/")];
    assert_eq!(matches, conv_matches(expected_matches));
}

#[test]
fn test_no_input_lists_namespaces_and_default_children() {
    let conf = get_testing_config();
    let matches = get_matches(&conf, "", &testing_tlds());
    let expected_matches = vec![
        ("allonsy/", "allonsy/"),
        ("aur.archlinux.org:", "aur.archlinux.org:"),
        ("gitlab.com:", "gitlab.com:"),
    ];
    assert_eq!(matches, conv_matches(expected_matches));
}

#[test]
fn test_two_namespaces_and_one_child() {
    let conf = get_testing_config();
    let tlds = vec![
        d("github.com", vec![d("alice", vec![])]),
        d("gitlab.com", vec![]),
    ];
    let matches = get_matches(&conf, "", &tlds);
    let expected_matches = vec![("alice/", "alice/"), ("gitlab.com:", "gitlab.com:")];
    assert_eq!(matches, conv_matches(expected_matches));
}

#[test]
fn test_namespace_scan_sorted_by_label() {
    let conf = get_testing_config();
    let tlds = vec![d(
        "host",
        vec![d("user", vec![d("repoA", vec![]), d("repoB", vec![])])],
    )];
    let matches = get_matches(&conf, "host:user/", &tlds);
    let expected_matches = vec![
        ("host:user/repoA/", "repoA/"),
        ("host:user/repoB/", "repoB/"),
    ];
    assert_eq!(matches, conv_matches(expected_matches));
}

#[test]
fn test_short_path_labels_equal_values() {
    let conf = get_testing_config();
    let matches = get_matches(&conf, "allonsy/gclone/", &testing_tlds());
    let expected_matches = vec![
        ("allonsy/gclone/src/", "allonsy/gclone/src/"),
        ("allonsy/gclone/test/", "allonsy/gclone/test/"),
    ];
    assert_eq!(matches, conv_matches(expected_matches));
}

#[test]
fn test_short_path_incomplete_segment() {
    let conf = get_testing_config();
    let matches = get_matches(&conf, "allonsy/gclone/src/co", &testing_tlds());
    let expected_matches = vec![("allonsy/gclone/src/code/", "allonsy/gclone/src/code/")];
    assert_eq!(matches, conv_matches(expected_matches));
}

#[test]
fn test_repo_name_search() {
    let conf = get_testing_config();
    let matches = get_matches(&conf, "gcl", &testing_tlds());
    let expected_matches = vec![
        ("allonsy/gclone/", "allonsy/gclone/"),
        ("aur.archlinux.org:gclone/", "aur.archlinux.org:gclone/"),
        ("github.com:allonsy/gclone/", "github.com:allonsy/gclone/"),
    ];
    assert_eq!(matches, conv_matches(expected_matches));
}

#[test]
fn test_user_search_all_namespaces() {
    let conf = get_testing_config();
    let matches = get_matches(&conf, "all", &testing_tlds());
    let expected_matches = vec![
        ("allonsy/", "allonsy/"),
        ("github.com:allonsy/", "github.com:allonsy/"),
        ("gitlab.com:allonsy/", "gitlab.com:allonsy/"),
    ];
    assert_eq!(matches, conv_matches(expected_matches));
}

#[test]
fn test_depth_bound_hides_third_level() {
    let conf = get_testing_config();
    // "code" sits three levels below the namespace root; with the default
    // search depth of 2 it must never appear, however well it matches.
    let matches = get_matches(&conf, "co", &testing_tlds());
    assert_eq!(matches, conv_matches(vec![]));
}

#[test]
fn test_depth_bound_keeps_second_level() {
    let conf = get_testing_config();
    // mat2 sits two levels below the namespace root and is found; mat3,
    // three levels deep, is not, even though its name matches as well.
    let tlds = vec![d(
        "host2",
        vec![d("a", vec![d("mat2", vec![d("mat3", vec![])])])],
    )];
    let matches = get_matches(&conf, "mat", &tlds);
    let expected_matches = vec![("host2:a/mat2/", "host2:a/mat2/")];
    assert_eq!(matches, conv_matches(expected_matches));
}

#[test]
fn test_complete_twice_identical() {
    let conf = get_testing_config();
    let first = get_matches(&conf, "gcl", &testing_tlds());
    let second = get_matches(&conf, "gcl", &testing_tlds());
    assert_eq!(first, second);
}

#[test]
fn test_missing_namespace_yields_nothing() {
    let conf = get_testing_config();
    let matches = get_matches(&conf, "nosuchhost:user/", &testing_tlds());
    assert_eq!(matches, conv_matches(vec![]));
}

#[test]
fn test_other_namespaces_unaffected_by_missing_one() {
    let conf = get_testing_config();
    let tlds = vec![d("present", vec![d("thing", vec![])])];
    assert_eq!(get_matches(&conf, "absent:", &tlds), conv_matches(vec![]));
    let matches = get_matches(&conf, "present:", &tlds);
    assert_eq!(
        matches,
        conv_matches(vec![("present:thing/", "thing/")])
    );
}

#[test]
fn test_missing_default_namespace_dir() {
    let conf = get_testing_config();
    // no github.com directory at all: the empty input still lists the
    // other namespaces, and the slash case degrades to no candidates
    let tlds = vec![d("gitlab.com", vec![d("allonsy", vec![])])];
    let matches = get_matches(&conf, "", &tlds);
    assert_eq!(
        matches,
        conv_matches(vec![("gitlab.com:", "gitlab.com:")])
    );
    assert_eq!(get_matches(&conf, "user/", &tlds), conv_matches(vec![]));
}

#[test]
fn test_sort_is_case_insensitive() {
    let conf = get_testing_config();
    let tlds = vec![d(
        "github.com",
        vec![d("Beta", vec![]), d("alpha", vec![])],
    )];
    let matches = get_matches(&conf, "", &tlds);
    let expected_matches = vec![("alpha/", "alpha/"), ("Beta/", "Beta/")];
    assert_eq!(matches, conv_matches(expected_matches));
}

#[test]
fn test_hint_sorter_orders_by_label() {
    let less = ("b".to_string(), "Alpha".to_string());
    let greater = ("a".to_string(), "beta".to_string());
    assert_eq!(hint_sorter(&less, &greater), Ordering::Less);
    assert_eq!(hint_sorter(&greater, &less), Ordering::Greater);
    assert_eq!(hint_sorter(&less, &less), Ordering::Equal);
}

#[test]
fn test_empty_workspace() {
    let conf = get_testing_config();
    let tlds: Vec<Dir> = vec![];
    assert_eq!(get_matches(&conf, "", &tlds), conv_matches(vec![]));
    assert_eq!(get_matches(&conf, "gcl", &tlds), conv_matches(vec![]));
}
