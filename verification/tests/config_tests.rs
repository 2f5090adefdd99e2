use gclone::config::{get_config, get_default_domain, get_default_is_https,
    get_default_search_depth, Config};

#[test]
fn test_config_defaults() {
    let conf = get_config("home/Projects/git".to_string(), None);
    assert_eq!(conf.get_base_path(), "home/Projects/git");
    assert_eq!(conf.get_domain(), "github.com");
    assert_eq!(conf.get_is_https(), false);
    assert_eq!(conf.get_default_search_depth(), 2);
}

#[test]
fn test_default_values() {
    assert_eq!(get_default_domain(), "github.com");
    assert_eq!(get_default_is_https(), false);
    assert_eq!(get_default_search_depth(), 2);
}

#[test]
fn test_config_new_uses_defaults() {
    let conf = Config::new("somewhere".to_string());
    assert_eq!(conf.get_base_path(), "somewhere");
    assert_eq!(conf.get_domain(), "github.com");
    assert_eq!(conf.get_is_https(), false);
    assert_eq!(conf.get_default_search_depth(), 2);
}

#[test]
fn test_config_file_overrides() {
    let text = "basePath = \"/data/src\"\ndefaultDomain = \"gitlab.com\"\ndefaultHttps = true\ndefaultDepth = 5\n";
    let conf = get_config("home".to_string(), Some(text));
    assert_eq!(conf.get_base_path(), "/data/src");
    assert_eq!(conf.get_domain(), "gitlab.com");
    assert_eq!(conf.get_is_https(), true);
    assert_eq!(conf.get_default_search_depth(), 5);
}

#[test]
fn test_config_partial_file() {
    let text = "defaultDomain = \"sr.ht\"\n";
    let conf = get_config("home".to_string(), Some(text));
    assert_eq!(conf.get_base_path(), "home");
    assert_eq!(conf.get_domain(), "sr.ht");
    assert_eq!(conf.get_is_https(), false);
    assert_eq!(conf.get_default_search_depth(), 2);
}

#[test]
fn test_config_unparsable_file_keeps_defaults() {
    let text = "defaultDomain = [not valid";
    let conf = get_config("home".to_string(), Some(text));
    assert_eq!(conf.get_domain(), "github.com");
    assert_eq!(conf.get_default_search_depth(), 2);
}

#[test]
fn test_config_wrongly_typed_entries_ignored() {
    let text = "defaultDomain = 7\ndefaultHttps = \"yes\"\ndefaultDepth = \"three\"\n";
    let conf = get_config("home".to_string(), Some(text));
    assert_eq!(conf.get_domain(), "github.com");
    assert_eq!(conf.get_is_https(), false);
    assert_eq!(conf.get_default_search_depth(), 2);
}

#[test]
fn test_config_negative_depth_ignored() {
    let text = "defaultDepth = -4\n";
    let conf = get_config("home".to_string(), Some(text));
    assert_eq!(conf.get_default_search_depth(), 2);
}

#[test]
fn test_config_unknown_keys_ignored() {
    let text = "somethingElse = \"x\"\ndefaultDepth = 1\n";
    let conf = get_config("home".to_string(), Some(text));
    assert_eq!(conf.get_domain(), "github.com");
    assert_eq!(conf.get_default_search_depth(), 1);
}
