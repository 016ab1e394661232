use clipboard_sync::config::{Config, ConfigError, ConfigKey};

#[test]
fn reads_all_keys() {
    let c = Config::load("# comment\nlocal_name = ubuntu\n\nremote_names=win, mac ,\ndir_name=./shared\n").unwrap();
    assert_eq!(c.local_name, "ubuntu");
    assert_eq!(c.remote_names, vec!["win".to_string(), "mac".to_string(), String::new()]);
    assert_eq!(c.dir_name, "./shared");
}

#[test]
fn crlf_lines() {
    let c = Config::load("local_name=a\r\nremote_names=b\r\ndir_name=d\r\n").unwrap();
    assert_eq!(c.local_name, "a");
    assert_eq!(c.remote_names, vec!["b".to_string()]);
    assert_eq!(c.dir_name, "d");
}

#[test]
fn config_errors() {
    assert_eq!(Config::load("local_name").err(), Some(ConfigError::NoValue { line: 0 }));
    assert_eq!(Config::load("\nlocal_name=  ").err(), Some(ConfigError::NoValue { line: 1 }));
    assert_eq!(Config::load("a=b=c").err(), Some(ConfigError::TooManyParts { line: 0 }));
    assert_eq!(Config::load("colour=red").err(), Some(ConfigError::UnknownKey { line: 0 }));
    assert_eq!(
        Config::load("local_name=a\nlocal_name=b").err(),
        Some(ConfigError::Duplicate(ConfigKey::LocalName))
    );
    assert_eq!(
        Config::load("remote_names=a\nremote_names=b").err(),
        Some(ConfigError::Duplicate(ConfigKey::RemoteNames))
    );
    assert_eq!(
        Config::load("dir_name=a\ndir_name=b").err(),
        Some(ConfigError::Duplicate(ConfigKey::DirName))
    );
    assert_eq!(Config::load("").err(), Some(ConfigError::Missing(ConfigKey::LocalName)));
    assert_eq!(
        Config::load("local_name=a").err(),
        Some(ConfigError::Missing(ConfigKey::RemoteNames))
    );
    assert_eq!(
        Config::load("local_name=a\nremote_names=b,a").err(),
        Some(ConfigError::RemoteIsLocal)
    );
    assert_eq!(
        Config::load("local_name=a\nremote_names=b").err(),
        Some(ConfigError::Missing(ConfigKey::DirName))
    );
}
