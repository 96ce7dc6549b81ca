use header42::config::{
    config_file_paths, default_config_path, email_for, env_config, first_loaded, home_dir,
    resolve_config, UserConfig,
};

fn cfg(username: Option<&str>, email: Option<&str>) -> UserConfig {
    UserConfig::new(username.map(|s| s.to_string()), email.map(|s| s.to_string()))
}

#[test]
fn defaults_when_nothing_is_given() {
    let r = resolve_config(UserConfig::default(), UserConfig::default(), UserConfig::default());
    assert_eq!(r, ("marvin".to_string(), "marvin@student.42.fr".to_string()));
}

#[test]
fn editor_settings_win() {
    let r = resolve_config(
        cfg(Some("zed"), Some("zed@mail")),
        cfg(Some("file"), Some("file@mail")),
        cfg(Some("env"), Some("env@mail")),
    );
    assert_eq!(r, ("zed".to_string(), "zed@mail".to_string()));
}

#[test]
fn file_wins_over_environment() {
    let r = resolve_config(
        cfg(None, None),
        cfg(Some("file"), None),
        cfg(Some("env"), Some("env@mail")),
    );
    assert_eq!(r, ("file".to_string(), "env@mail".to_string()));
}

#[test]
fn parts_are_resolved_separately() {
    let r = resolve_config(cfg(None, Some("zed@mail")), cfg(None, None), cfg(Some("env"), None));
    assert_eq!(r, ("env".to_string(), "zed@mail".to_string()));
}

#[test]
fn default_email_follows_resolved_user() {
    let r = resolve_config(cfg(None, None), cfg(Some("jdoe"), None), cfg(None, None));
    assert_eq!(r, ("jdoe".to_string(), "jdoe@student.42.fr".to_string()));
    assert_eq!(email_for("x"), "x@student.42.fr");
}

#[test]
fn environment_user_order() {
    let c = env_config(None, Some("user".to_string()), Some("username".to_string()), None);
    assert_eq!(c.username, Some("user".to_string()));
    assert_eq!(c.email, None);
    let c = env_config(Some("u42".to_string()), Some("user".to_string()), None, Some("m@x".to_string()));
    assert_eq!(c.username, Some("u42".to_string()));
    assert_eq!(c.email, Some("m@x".to_string()));
    let c = env_config(None, None, Some("username".to_string()), None);
    assert_eq!(c.username, Some("username".to_string()));
}

#[test]
fn first_readable_file_counts() {
    let found = vec![None, Some(cfg(Some("b"), None)), Some(cfg(Some("c"), Some("c@x")))];
    let c = first_loaded(found);
    assert_eq!(c.username, Some("b".to_string()));
    assert_eq!(c.email, None);
}

#[test]
fn no_readable_file_gives_nothing() {
    let c = first_loaded(vec![None, None]);
    assert_eq!(c.username, None);
    assert_eq!(c.email, None);
    let c = first_loaded(Vec::new());
    assert_eq!(c.username, None);
}

#[test]
fn home_directory_choice() {
    assert_eq!(home_dir(Some("/home/a".to_string()), Some("C:\\b".to_string())), Some("/home/a".to_string()));
    assert_eq!(home_dir(None, Some("C:\\b".to_string())), Some("C:\\b".to_string()));
    assert_eq!(home_dir(None, None), None);
}

#[test]
fn candidate_config_files() {
    let p = config_file_paths(Some("/xdg".to_string()), Some("/home/a".to_string()));
    let v: Vec<(Option<String>, String)> = p.into_iter().map(|c| (c.dir, c.file)).collect();
    assert_eq!(
        v,
        vec![
            (Some("/xdg".to_string()), "42header/config.toml".to_string()),
            (Some("/home/a".to_string()), ".config/42header/config.toml".to_string()),
            (Some("/home/a".to_string()), ".42header.toml".to_string()),
        ]
    );
    assert_eq!(config_file_paths(None, None).len(), 0);
    assert_eq!(config_file_paths(Some("/xdg".to_string()), None).len(), 1);
}

#[test]
fn new_config_file_location() {
    let p = default_config_path(Some("/xdg".to_string()), Some("/home/a".to_string()));
    assert_eq!((p.dir, p.file), (Some("/xdg".to_string()), "42header/config.toml".to_string()));
    let p = default_config_path(None, Some("/home/a".to_string()));
    assert_eq!((p.dir, p.file), (Some("/home/a".to_string()), ".config/42header/config.toml".to_string()));
    let p = default_config_path(None, None);
    assert_eq!((p.dir, p.file), (None, ".42header.toml".to_string()));
}

#[test]
fn new_config_file_is_the_first_candidate() {
    let first = config_file_paths(None, Some("/h".to_string())).into_iter().next().unwrap();
    let p = default_config_path(None, Some("/h".to_string()));
    assert_eq!((first.dir, first.file), (p.dir, p.file));
}
