use verylup::error::Error;
use verylup::install::{
    check_tool_repository, check_uninstall, choose_build_profile, install_query,
    local_version_string, plan_from_package, plan_latest, plan_pinned, stage_steps, BuildProfile,
    InstallQuery, PackagePlan,
};
use verylup::release::{get_archive_url, get_nightly_url, get_nightly_version_url,
    version_from_release_path};
use verylup::toolchain::{toolchains_from_names, ToolChain};
use verylup::version::{parse_version_output, Version};

fn ver(major: u64, minor: u64, patch: u64) -> Version {
    Version { major, minor, patch }
}

#[test]
fn offline_requires_package_for_install_and_update() {
    // the update command installs the `latest` target
    assert_eq!(
        install_query(&ToolChain::Latest, false, true),
        Err(Error::OfflineRequiresPackage)
    );
    // an install command with a pinned target
    assert_eq!(
        install_query(&ToolChain::Version(ver(1, 2, 3)), false, true),
        Err(Error::OfflineRequiresPackage)
    );
    // a supplied package lifts the restriction
    assert_eq!(
        install_query(&ToolChain::Latest, true, true),
        Ok(InstallQuery::FromPackage)
    );
}

#[test]
fn query_per_target() {
    assert_eq!(
        install_query(&ToolChain::Latest, false, false),
        Ok(InstallQuery::LatestVersion)
    );
    assert_eq!(
        install_query(&ToolChain::Version(ver(0, 16, 0)), false, false),
        Ok(InstallQuery::PinnedVersion(ver(0, 16, 0)))
    );
    assert_eq!(
        install_query(&ToolChain::Local, false, false),
        Ok(InstallQuery::BuildLocal)
    );
    assert_eq!(
        install_query(&ToolChain::Nightly, false, false),
        Ok(InstallQuery::FetchNightly)
    );
}

#[test]
fn pinned_install_is_idempotent() {
    // a toolchain reporting the pinned version is not downloaded again
    assert_eq!(plan_pinned(&ver(1, 2, 3), Some(&ver(1, 2, 3))), None);
    assert_eq!(
        plan_pinned(&ver(1, 2, 3), Some(&ver(1, 2, 2))),
        Some(ver(1, 2, 3))
    );
    assert_eq!(plan_pinned(&ver(1, 2, 3), None), Some(ver(1, 2, 3)));
}

#[test]
fn latest_skips_only_exact_match() {
    assert_eq!(plan_latest(&ver(0, 16, 2), Some(&ver(0, 16, 2))), None);
    assert_eq!(
        plan_latest(&ver(0, 16, 2), Some(&ver(0, 16, 1))),
        Some(ver(0, 16, 2))
    );
    assert_eq!(plan_latest(&ver(0, 16, 2), None), Some(ver(0, 16, 2)));
}

#[test]
fn package_plan_rules() {
    let pinned = ToolChain::Version(ver(1, 2, 3));
    // not newer than installed: up to date, even for a mismatched pin
    assert_eq!(
        plan_from_package(&pinned, &ver(1, 2, 2), Some(&ver(1, 2, 2))),
        Ok(PackagePlan::UpToDate)
    );
    // newer, but conflicting with the pinned target
    assert_eq!(
        plan_from_package(&pinned, &ver(1, 2, 4), Some(&ver(1, 2, 2))),
        Err(Error::PackageMismatch)
    );
    // newer and matching the pin
    assert_eq!(
        plan_from_package(&pinned, &ver(1, 2, 3), Some(&ver(1, 2, 2))),
        Ok(PackagePlan::Extract)
    );
    // nothing installed yet
    assert_eq!(
        plan_from_package(&ToolChain::Latest, &ver(1, 2, 3), None),
        Ok(PackagePlan::Extract)
    );
}

#[test]
fn uninstall_requires_installation() {
    let names: Vec<String> = vec!["1.0.0".to_string(), "nightly".to_string()];
    let installed = toolchains_from_names(&names);
    assert_eq!(
        check_uninstall(&ToolChain::Latest, &installed),
        Err(Error::NotFound)
    );
    assert_eq!(check_uninstall(&ToolChain::Nightly, &installed), Ok(()));

    // after removing its directory the toolchain is gone from the listing
    let remaining: Vec<String> = vec!["1.0.0".to_string()];
    let list = toolchains_from_names(&remaining);
    assert!(!list.contains(&ToolChain::Nightly));
    assert_eq!(check_uninstall(&ToolChain::Nightly, &list), Err(Error::NotFound));
}

#[test]
fn archive_urls() {
    let v = ver(0, 16, 2);
    assert_eq!(
        get_archive_url("veryl", &v, "x86_64-unknown-linux-gnu").unwrap(),
        "https://github.com/veryl-lang/veryl/releases/download/v0.16.2/veryl-x86_64-linux.zip"
    );
    assert_eq!(
        get_archive_url("verylup", &v, "aarch64-apple-darwin").unwrap(),
        "https://github.com/veryl-lang/verylup/releases/download/v0.16.2/verylup-aarch64-mac.zip"
    );
    assert_eq!(
        get_archive_url("veryl", &v, "x86_64-pc-windows-msvc").unwrap(),
        "https://github.com/veryl-lang/veryl/releases/download/v0.16.2/veryl-x86_64-windows.zip"
    );
    assert_eq!(
        get_archive_url("veryl", &v, "riscv64gc-unknown-linux-gnu"),
        Err(Error::UnsupportedPlatform)
    );
}

#[test]
fn nightly_urls() {
    assert_eq!(
        get_nightly_url("aarch64-unknown-linux-musl").unwrap(),
        "https://static.veryl-lang.org/toolchain/nightly/veryl-aarch64-linux.zip"
    );
    assert_eq!(
        get_nightly_url("wasm32-unknown-unknown"),
        Err(Error::UnsupportedPlatform)
    );
    assert_eq!(
        get_nightly_version_url(),
        "https://static.veryl-lang.org/toolchain/nightly/version"
    );
}

#[test]
fn release_path_version() {
    assert_eq!(
        version_from_release_path("/veryl-lang/veryl/releases/tag/v0.16.2"),
        Ok(ver(0, 16, 2))
    );
    assert_eq!(version_from_release_path("v1.2.3"), Ok(ver(1, 2, 3)));
    assert_eq!(
        version_from_release_path("/veryl-lang/veryl/releases/tag/0.16.2"),
        Err(Error::ParseError)
    );
    assert_eq!(
        version_from_release_path("/releases/latest/"),
        Err(Error::ParseError)
    );
}

#[test]
fn version_output_parsing() {
    assert_eq!(parse_version_output("veryl 0.16.2\n"), Ok(ver(0, 16, 2)));
    assert_eq!(parse_version_output("veryl 0.16.2"), Ok(ver(0, 16, 2)));
    assert_eq!(parse_version_output("veryl 1.0.0 \t\r\n"), Ok(ver(1, 0, 0)));
    assert_eq!(parse_version_output("other 0.16.2\n"), Err(Error::ParseError));
    assert_eq!(
        parse_version_output("veryl 0.16.2-local (abc 2024-01-01)\n"),
        Err(Error::ParseError)
    );
    assert_eq!(parse_version_output("veryl"), Err(Error::ParseError));
}

#[test]
fn tool_repository_check() {
    let good: Vec<String> = vec!["veryl-std".to_string(), "veryl".to_string()];
    assert_eq!(check_tool_repository(&good), Ok(()));
    let ls_only: Vec<String> = vec!["veryl-ls".to_string()];
    assert_eq!(check_tool_repository(&ls_only), Ok(()));
    let other: Vec<String> = vec!["some-crate".to_string()];
    assert_eq!(check_tool_repository(&other), Err(Error::NotAToolRepository));
    let empty: Vec<String> = Vec::new();
    assert_eq!(check_tool_repository(&empty), Err(Error::NotAToolRepository));
}

#[test]
fn build_profile_choice() {
    let manifest_with = "[workspace]\n[profile.release-verylup]\nlto = true\n";
    let manifest_without = "[workspace]\n[profile.release]\n";
    assert_eq!(choose_build_profile(true, manifest_with), BuildProfile::Debug);
    assert_eq!(
        choose_build_profile(false, manifest_with),
        BuildProfile::ReleaseVerylup
    );
    assert_eq!(
        choose_build_profile(false, manifest_without),
        BuildProfile::Release
    );
}

#[test]
fn build_profile_arguments() {
    assert_eq!(BuildProfile::Debug.build_args(), vec!["build".to_string()]);
    assert_eq!(
        BuildProfile::ReleaseVerylup.build_args(),
        vec![
            "build".to_string(),
            "--profile".to_string(),
            "release-verylup".to_string()
        ]
    );
    assert_eq!(
        BuildProfile::Release.build_args(),
        vec!["build".to_string(), "--release".to_string()]
    );
    assert_eq!(BuildProfile::Debug.target_subdir(), "debug");
    assert_eq!(BuildProfile::ReleaseVerylup.target_subdir(), "release-verylup");
    assert_eq!(BuildProfile::Release.target_subdir(), "release");
}

#[test]
fn local_version_text() {
    assert_eq!(
        local_version_string("0.16.2", "ab12cd3", "2026-10-11"),
        "0.16.2-local (ab12cd3 2026-10-11)"
    );
}

#[test]
fn staged_replacement_steps() {
    let files: Vec<String> = vec!["veryl".to_string(), "veryl-ls".to_string()];
    let steps = stage_steps("/tmp/stage/bin", "/data/toolchains/local", &files);
    assert_eq!(steps.len(), 2);
    assert_eq!(steps[0].source, "/tmp/stage/bin/veryl");
    assert_eq!(steps[0].staging, "/data/toolchains/local/veryl.new");
    assert_eq!(steps[0].target, "/data/toolchains/local/veryl");
    assert_eq!(steps[1].source, "/tmp/stage/bin/veryl-ls");
    assert_eq!(steps[1].staging, "/data/toolchains/local/veryl-ls.new");
    assert_eq!(steps[1].target, "/data/toolchains/local/veryl-ls");

    // an existing extension is replaced, as on Windows binaries
    let exe: Vec<String> = vec!["veryl.exe".to_string()];
    let steps = stage_steps("/b", "/d", &exe);
    assert_eq!(steps[0].staging, "/d/veryl.new");
    assert_eq!(steps[0].target, "/d/veryl.exe");
}
