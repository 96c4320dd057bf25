use verylup::config::{default_self_update, Config};
use verylup::error::Error;

#[test]
fn defaults() {
    let c = Config::new_default();
    assert_eq!(c.default_toolchain, None);
    assert!(c.overrides.is_empty());
    assert!(!c.offline);
    assert_eq!(c.proxy, None);
    assert!(c.self_update);
    assert!(default_self_update());
}

#[test]
fn set_offline_flag() {
    let mut c = Config::new_default();
    assert_eq!(c.set("offline", "true"), Ok(()));
    assert!(c.offline);
    assert_eq!(c.set("offline", "false"), Ok(()));
    assert!(!c.offline);
    assert_eq!(c.set("offline", "yes"), Err(Error::ParseError));
    assert!(!c.offline);
}

#[test]
fn set_proxy_value() {
    let mut c = Config::new_default();
    assert_eq!(c.set("proxy", "http://proxy.example:3128"), Ok(()));
    assert_eq!(c.proxy, Some("http://proxy.example:3128".to_string()));
    assert_eq!(c.unset("proxy"), Ok(()));
    assert_eq!(c.proxy, None);
}

#[test]
fn unknown_key_is_rejected() {
    let mut c = Config::new_default();
    assert_eq!(c.set("color", "auto"), Err(Error::UnknownConfigKey));
    assert_eq!(c.unset("color"), Err(Error::UnknownConfigKey));
}

#[test]
fn unset_offline_resets() {
    let mut c = Config::new_default();
    c.set("offline", "true").unwrap();
    assert_eq!(c.unset("offline"), Ok(()));
    assert!(!c.offline);
}

#[test]
fn override_set_get_unset() {
    let mut c = Config::new_default();
    assert_eq!(c.get_override("/home/u/proj"), None);
    c.set_override("/home/u/proj".to_string(), "1.0.0".to_string());
    c.set_override("/home/u/other".to_string(), "latest".to_string());
    assert_eq!(c.get_override("/home/u/proj"), Some("1.0.0".to_string()));
    assert_eq!(c.get_override("/home/u/other"), Some("latest".to_string()));
    c.set_override("/home/u/proj".to_string(), "2.0.0".to_string());
    assert_eq!(c.get_override("/home/u/proj"), Some("2.0.0".to_string()));
    assert_eq!(c.overrides.len(), 2);
    assert!(c.unset_override("/home/u/proj"));
    assert_eq!(c.get_override("/home/u/proj"), None);
    assert!(!c.unset_override("/home/u/proj"));
    assert_eq!(c.get_override("/home/u/other"), Some("latest".to_string()));
}

#[test]
fn show_text() {
    let mut c = Config::new_default();
    assert_eq!(
        c.show(),
        "Verylup configuration\n  offline: false\n  self_update: true\n"
    );
    c.set("offline", "true").unwrap();
    c.set("proxy", "socks5://p:1080").unwrap();
    c.self_update = false;
    assert_eq!(
        c.show(),
        "Verylup configuration\n  offline: true\n  proxy: socks5://p:1080\n  self_update: false\n"
    );
}

#[test]
fn error_messages() {
    assert_eq!(Error::ParseError.message(), "unknown toolchain or version");
    assert_eq!(Error::NotFound.message(), "toolchain is not found");
    assert_eq!(
        Error::OfflineRequiresPackage.message(),
        "a package is required in offline mode"
    );
    assert_eq!(Error::PackageMismatch.message(), "unexpected package version");
    assert_eq!(Error::UnsupportedPlatform.message(), "unknown target");
    assert_eq!(Error::UnknownConfigKey.message(), "unknown configuration key");
    assert_eq!(
        Error::NotAToolRepository.message(),
        "this is not a tool repository"
    );
}
