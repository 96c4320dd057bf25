use verylup::cli::update_includes_nightly;
use verylup::error::Error;
use verylup::selfupdate::{plan_self_update, relink_steps, SelfUpdatePlan};
use verylup::toolchain::{toolchains_from_names, ToolChain};
use verylup::version::Version;

fn ver(major: u64, minor: u64, patch: u64) -> Version {
    Version { major, minor, patch }
}

#[test]
fn disabled_self_update_is_skipped() {
    assert_eq!(
        plan_self_update(false, &ver(0, 1, 0), &ver(9, 9, 9), "x86_64-unknown-linux-gnu"),
        Ok(SelfUpdatePlan::Disabled)
    );
}

#[test]
fn up_to_date_self_update_is_a_no_op() {
    assert_eq!(
        plan_self_update(true, &ver(1, 2, 3), &ver(1, 2, 3), "x86_64-unknown-linux-gnu"),
        Ok(SelfUpdatePlan::UpToDate)
    );
    // a published version older than the running one is also a no-op
    assert_eq!(
        plan_self_update(true, &ver(1, 2, 4), &ver(1, 2, 3), "x86_64-unknown-linux-gnu"),
        Ok(SelfUpdatePlan::UpToDate)
    );
}

#[test]
fn newer_release_updates_from_own_archive() {
    assert_eq!(
        plan_self_update(true, &ver(0, 1, 0), &ver(0, 1, 1), "x86_64-unknown-linux-gnu"),
        Ok(SelfUpdatePlan::Update(
            "https://github.com/veryl-lang/verylup/releases/download/v0.1.1/verylup-x86_64-linux.zip"
                .to_string()
        ))
    );
    assert_eq!(
        plan_self_update(true, &ver(0, 1, 0), &ver(0, 1, 1), "sparc-unknown-none"),
        Err(Error::UnsupportedPlatform)
    );
}

#[test]
fn relink_covers_every_tool_name() {
    let steps = relink_steps("/home/u/.local/bin", false);
    assert_eq!(steps.len(), 2);
    assert_eq!(steps[0].dest, "/home/u/.local/bin/veryl");
    assert_eq!(steps[0].staging, "/home/u/.local/bin/veryl.new");
    assert_eq!(steps[1].dest, "/home/u/.local/bin/veryl-ls");
    assert_eq!(steps[1].staging, "/home/u/.local/bin/veryl-ls.new");

    let steps = relink_steps("C:/bin", true);
    assert_eq!(steps[0].dest, "C:/bin/veryl.exe");
    assert_eq!(steps[1].dest, "C:/bin/veryl-ls.exe");
}

#[test]
fn nightly_refresh_rule() {
    let with_nightly = toolchains_from_names(&vec![
        "1.0.0".to_string(),
        "nightly".to_string(),
    ]);
    let without = toolchains_from_names(&vec!["1.0.0".to_string()]);
    assert!(update_includes_nightly(&with_nightly, false));
    assert!(!update_includes_nightly(&with_nightly, true));
    assert!(!update_includes_nightly(&without, false));
    assert!(!update_includes_nightly(&ToolChain::parse("nightly")
        .map(|t| vec![t])
        .unwrap(), true));
}
