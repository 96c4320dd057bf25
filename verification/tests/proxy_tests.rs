use verylup::cli::{invocation_mode, Mode};
use verylup::config::Config;
use verylup::error::Error;
use verylup::proxy::{pin_toolchain, plan_proxy};
use verylup::toolchain::{toolchains_from_names, ToolChain};
use verylup::version::Version;

fn ver(major: u64, minor: u64, patch: u64) -> Version {
    Version { major, minor, patch }
}

fn installed_set(names: &[&str]) -> Vec<ToolChain> {
    let names: Vec<String> = names.iter().map(|s| s.to_string()).collect();
    toolchains_from_names(&names)
}

#[test]
fn mode_from_invoked_name() {
    assert_eq!(invocation_mode("verylup"), Mode::Manager);
    assert_eq!(invocation_mode("veryl"), Mode::Proxy);
    assert_eq!(invocation_mode("veryl-ls"), Mode::Proxy);
    assert_eq!(invocation_mode("tool-x"), Mode::Proxy);
}

#[test]
fn pin_dispatch_builds_exact_invocation() {
    let installed = installed_set(&["1.2.3", "2.0.0"]);
    let config = Config::new_default();
    let args: Vec<String> = vec![
        "+1.2.3".to_string(),
        "build".to_string(),
        "--flag value".to_string(),
    ];
    let cmd = plan_proxy("tool-x", &args, "/tc", &config, None, &installed).unwrap();
    assert_eq!(cmd.program, "/tc/1.2.3/tool-x");
    assert_eq!(
        cmd.args,
        vec!["build".to_string(), "--flag value".to_string()]
    );
}

#[test]
fn no_pin_dispatches_into_resolved_default() {
    let installed = installed_set(&["1.2.3", "2.0.0"]);
    let config = Config::new_default();
    let args: Vec<String> = vec!["check".to_string()];
    let cmd = plan_proxy("veryl", &args, "/tc", &config, None, &installed).unwrap();
    assert_eq!(cmd.program, "/tc/2.0.0/veryl");
    assert_eq!(cmd.args, vec!["check".to_string()]);
}

#[test]
fn pin_to_uninstalled_toolchain_fails() {
    let installed = installed_set(&["1.2.3"]);
    let config = Config::new_default();
    let args: Vec<String> = vec!["+2.0.0".to_string()];
    assert_eq!(
        plan_proxy("veryl", &args, "/tc", &config, None, &installed),
        Err(Error::NotFound)
    );
}

#[test]
fn nothing_installed_fails() {
    let installed: Vec<ToolChain> = Vec::new();
    let config = Config::new_default();
    let args: Vec<String> = Vec::new();
    assert_eq!(
        plan_proxy("veryl", &args, "/tc", &config, None, &installed),
        Err(Error::NotFound)
    );
}

#[test]
fn malformed_pin_fails_as_parse_error() {
    let installed = installed_set(&["1.2.3"]);
    let config = Config::new_default();
    let args: Vec<String> = vec!["+bogus!".to_string()];
    assert_eq!(
        plan_proxy("veryl", &args, "/tc", &config, None, &installed),
        Err(Error::ParseError)
    );
}

#[test]
fn range_pin_picks_highest_matching_version() {
    let installed = installed_set(&["1.0.0", "1.2.0", "1.2.5", "2.0.0", "nightly"]);
    assert_eq!(
        pin_toolchain("1.2", &installed),
        Ok(ToolChain::Version(ver(1, 2, 5)))
    );
    assert_eq!(
        pin_toolchain("1", &installed),
        Ok(ToolChain::Version(ver(1, 2, 5)))
    );
    assert_eq!(
        pin_toolchain(">=1", &installed),
        Ok(ToolChain::Version(ver(2, 0, 0)))
    );
    assert_eq!(pin_toolchain("0.16", &installed), Err(Error::ParseError));
}

#[test]
fn exact_pin_wins_over_range_reading() {
    let installed = installed_set(&["1.2.0", "1.2.5"]);
    // "1.2.0" is a toolchain name, so it pins exactly, not as a range
    assert_eq!(
        pin_toolchain("1.2.0", &installed),
        Ok(ToolChain::Version(ver(1, 2, 0)))
    );
    // keywords pin directly
    assert_eq!(pin_toolchain("nightly", &installed), Ok(ToolChain::Nightly));
}

#[test]
fn dispatch_honors_directory_override() {
    let installed = installed_set(&["1.0.0", "2.0.0"]);
    let mut config = Config::new_default();
    let project = "/home/u/proj".to_string();
    config.set_override(project.clone(), "1.0.0".to_string());
    config.default_toolchain = Some("2.0.0".to_string());
    let args: Vec<String> = vec!["build".to_string()];
    let cmd = plan_proxy("veryl", &args, "/tc", &config, Some(&project), &installed).unwrap();
    assert_eq!(cmd.program, "/tc/1.0.0/veryl");

    // outside the project, the configured default wins
    let cmd = plan_proxy("veryl", &args, "/tc", &config, None, &installed).unwrap();
    assert_eq!(cmd.program, "/tc/2.0.0/veryl");
}

#[test]
fn range_pin_skips_non_version_toolchains() {
    let installed = installed_set(&["nightly", "latest", "local"]);
    assert_eq!(pin_toolchain("1", &installed), Err(Error::ParseError));
}
