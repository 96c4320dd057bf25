use verylup::config::Config;
use verylup::resolve::{by_name, resolve_default};
use verylup::toolchain::{toolchains_from_names, ToolChain};
use verylup::version::Version;

fn ver(major: u64, minor: u64, patch: u64) -> Version {
    Version { major, minor, patch }
}

fn installed_set(names: &[&str]) -> Vec<ToolChain> {
    let names: Vec<String> = names.iter().map(|s| s.to_string()).collect();
    toolchains_from_names(&names)
}

#[test]
fn precedence_override_then_default_then_max() {
    let installed = installed_set(&["1.0.0", "2.0.0"]);
    let project = "/home/u/proj".to_string();

    let mut config = Config::new_default();
    config.set_override(project.clone(), "1.0.0".to_string());
    config.default_toolchain = Some("2.0.0".to_string());

    // the directory override wins
    assert_eq!(
        resolve_default(&config, Some(&project), &installed),
        Some(ToolChain::Version(ver(1, 0, 0)))
    );

    // without the override, the configured default wins
    config.unset_override(project.as_str());
    assert_eq!(
        resolve_default(&config, Some(&project), &installed),
        Some(ToolChain::Version(ver(2, 0, 0)))
    );

    // without both, the highest-ordered installed toolchain wins
    config.default_toolchain = None;
    assert_eq!(
        resolve_default(&config, Some(&project), &installed),
        Some(ToolChain::Version(ver(2, 0, 0)))
    );
}

#[test]
fn stale_override_falls_through() {
    // an override naming an uninstalled toolchain is ignored
    let installed = installed_set(&["1.0.0", "2.0.0"]);
    let project = "/home/u/proj".to_string();
    let mut config = Config::new_default();
    config.set_override(project.clone(), "3.0.0".to_string());
    config.default_toolchain = Some("1.0.0".to_string());
    assert_eq!(
        resolve_default(&config, Some(&project), &installed),
        Some(ToolChain::Version(ver(1, 0, 0)))
    );
}

#[test]
fn stale_default_falls_through_to_max() {
    let installed = installed_set(&["0.9.0", "0.10.0"]);
    let mut config = Config::new_default();
    config.default_toolchain = Some("nightly".to_string());
    assert_eq!(
        resolve_default(&config, None, &installed),
        Some(ToolChain::Version(ver(0, 10, 0)))
    );
}

#[test]
fn nothing_installed_resolves_to_none() {
    let installed: Vec<ToolChain> = Vec::new();
    let config = Config::new_default();
    assert_eq!(resolve_default(&config, None, &installed), None);
}

#[test]
fn keywords_outrank_versions_in_max() {
    let installed = installed_set(&["2.0.0", "nightly"]);
    let config = Config::new_default();
    assert_eq!(
        resolve_default(&config, None, &installed),
        Some(ToolChain::Nightly)
    );
}

#[test]
fn by_name_requires_installation() {
    let installed = installed_set(&["1.0.0", "latest"]);
    assert_eq!(
        by_name("1.0.0", &installed),
        Some(ToolChain::Version(ver(1, 0, 0)))
    );
    assert_eq!(by_name("latest", &installed), Some(ToolChain::Latest));
    assert_eq!(by_name("2.0.0", &installed), None);
    assert_eq!(by_name("not-a-toolchain", &installed), None);
}
