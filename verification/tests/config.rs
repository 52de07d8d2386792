use study_time::config::{default_blocked_domains, Config, ConfigFile};
use study_time::paths::{get_config_dir, passwd_home, passwd_query, Base, Location};
use study_time::progress::Progress;

fn text_base(location: &Location<String>) -> &str {
    match &location.base {
        Base::Text(s) => s,
        Base::Native(_) => panic!("a directory of the system"),
    }
}

#[test]
fn default_domains_in_order() {
    assert_eq!(
        default_blocked_domains(),
        [
            "github.com",
            "twitter.com",
            "x.com",
            "youtube.com",
            "instagram.com",
            "linkedin.com",
            "bsky.app",
            "hachyderm.io",
            "zulip.com",
            "facebook.com",
        ]
    );
    assert_eq!(Config::default().blocked_domains, default_blocked_domains());
}

#[test]
fn missing_config_is_default_and_saved() {
    let loaded = Config::load(ConfigFile::Missing);
    assert_eq!(loaded.config.blocked_domains, default_blocked_domains());
    assert!(loaded.save);
}

#[test]
fn malformed_config_is_default_and_not_saved() {
    let loaded = Config::load(ConfigFile::Malformed);
    assert_eq!(loaded.config.blocked_domains, default_blocked_domains());
    assert!(!loaded.save);
}

#[test]
fn config_without_domains_has_the_default_ones() {
    let loaded = Config::load(ConfigFile::Parsed { blocked_domains: None });
    assert_eq!(loaded.config.blocked_domains, default_blocked_domains());
    assert!(!loaded.save);
}

#[test]
fn config_with_domains_has_those() {
    let domains = vec!["example.org".to_string()];
    let loaded = Config::load(ConfigFile::Parsed { blocked_domains: Some(domains.clone()) });
    assert_eq!(loaded.config.blocked_domains, domains);
    assert!(!loaded.save);
    let empty = Config::load(ConfigFile::Parsed { blocked_domains: Some(Vec::new()) });
    assert!(empty.config.blocked_domains.is_empty());
}

#[test]
fn saving_under_sudo_hands_the_file_over() {
    let plan = Config::save(
        Some("text".to_string()),
        Some("/home/ann/.config/study-time/config.toml".to_string()),
        Some("ann".to_string()),
    );
    assert_eq!(plan.write, Some("text".to_string()));
    assert_eq!(plan.then_run.len(), 1);
    assert_eq!(plan.then_run[0].program, "chown");
    assert_eq!(plan.then_run[0].args, ["ann", "/home/ann/.config/study-time/config.toml"]);
}

#[test]
fn saving_with_an_unreadable_path_names_no_file() {
    let plan = Config::save(Some("text".to_string()), None, Some("ann".to_string()));
    assert_eq!(plan.then_run[0].args, ["ann", ""]);
}

#[test]
fn saving_without_sudo_only_writes() {
    let plan = Config::save(Some("text".to_string()), Some("c.toml".to_string()), None);
    assert_eq!(plan.write, Some("text".to_string()));
    assert!(plan.then_run.is_empty());
}

#[test]
fn nothing_to_save_does_nothing() {
    let plan = Config::save(None, Some("c.toml".to_string()), Some("ann".to_string()));
    assert_eq!(plan.write, None);
    assert!(plan.then_run.is_empty());
}

#[test]
fn home_is_the_sixth_field() {
    let entry = b"ann:x:1000:1000:Ann,,,:/srv/ann:/bin/sh\n".to_vec();
    assert_eq!(passwd_home(entry), Some("/srv/ann".to_string()));
    assert_eq!(passwd_home(b"a:b:c:d:e:f".to_vec()), Some("f".to_string()));
    assert_eq!(passwd_home(b"a:b:c:d:e:".to_vec()), Some(String::new()));
}

#[test]
fn short_or_unreadable_entries_have_no_home() {
    assert_eq!(passwd_home(Vec::new()), None);
    assert_eq!(passwd_home(b"a:b:c:d:e".to_vec()), None);
    assert_eq!(passwd_home(vec![0xff, b':', b':', b':', b':', b':', b'x']), None);
}

#[test]
fn home_may_hold_any_text() {
    let entry = "a:b:c:d:e:/h\u{f6}me/\u{1f4da}:z".as_bytes().to_vec();
    assert_eq!(passwd_home(entry), Some("/h\u{f6}me/\u{1f4da}".to_string()));
}

#[test]
fn asks_the_user_database() {
    let query = passwd_query("ann");
    assert_eq!(query.program, "getent");
    assert_eq!(query.args, ["passwd", "ann"]);
}

#[test]
fn config_dir_under_sudo_is_in_the_home_directory() {
    let entry = b"ann:x:1000:1000::/srv/ann:/bin/sh".to_vec();
    let dir = get_config_dir(Some("ann".to_string()), Some(entry), Some("sys".to_string()));
    assert_eq!(text_base(&dir), "/srv/ann");
    assert_eq!(dir.names, [".config"]);
}

#[test]
fn config_dir_under_sudo_without_an_entry_is_under_home() {
    let dir = get_config_dir(Some("ann".to_string()), None, Some("sys".to_string()));
    assert_eq!(text_base(&dir), "/home/ann");
    assert_eq!(dir.names, [".config"]);
    let short = get_config_dir(Some("ann".to_string()), Some(Vec::new()), Some("sys".to_string()));
    assert_eq!(text_base(&short), "/home/ann");
}

#[test]
fn config_dir_without_sudo_is_that_of_the_system() {
    let dir = get_config_dir(None, None, Some("sys".to_string()));
    assert!(matches!(&dir.base, Base::Native(p) if p == "sys"));
    assert!(dir.names.is_empty());
}

#[test]
fn config_dir_without_any_is_the_working_directory() {
    let dir: Location<String> = get_config_dir(None, None, None);
    assert_eq!(text_base(&dir), ".");
    assert!(dir.names.is_empty());
}

#[test]
fn files_stand_in_one_directory() {
    let (dir, name) = Config::config_path(get_config_dir(None, None, Some("sys".to_string())));
    assert_eq!(dir.names, ["study-time"]);
    assert_eq!(name, "config.toml");
    let (dir, name) = Progress::config_path(get_config_dir(
        Some("ann".to_string()),
        None,
        Some("sys".to_string()),
    ));
    assert_eq!(dir.names, [".config", "study-time"]);
    assert_eq!(name, "progress.toml");
}
