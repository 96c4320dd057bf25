use vstd::prelude::*;

use crate::error::Error;
use crate::text::contains_seq;
use crate::text::str_contains;
use crate::text::str_eq;
use crate::text::rfind_char;
use crate::toolchain::names_to_toolchains;
use crate::toolchain::spec_name;
use crate::toolchain::ToolChain;
use crate::resolve::contains_toolchain;
use crate::version::version_le;
use crate::version::Version;

verus! {

/// What the installer must learn from outside before it can decide, for a
/// given target and invocation.
#[derive(Clone, Copy, Debug, PartialEq, Eq, Structural)]
pub enum InstallQuery {
    /// A package path was supplied: read the package's own reported
    /// version, and the installed one, then decide with `plan_from_package`.
    FromPackage,
    /// Ask the release service for the latest version and read the
    /// installed one, then decide with `plan_latest`.
    LatestVersion,
    /// Read the installed version for this pinned release, then decide
    /// with `plan_pinned`.
    PinnedVersion(Version),
    /// Build from the local source checkout.
    BuildLocal,
    /// Fetch the nightly archive; nightly has no version to compare.
    FetchNightly,
}

/// First step of the install state machine: what to do for a target,
/// given whether a package path was supplied and whether offline mode is
/// set.  Offline mode without a package is an error for every target.
pub fn install_query(target: &ToolChain, has_pkg: bool, offline: bool) -> (r: Result<
    InstallQuery,
    Error,
>)
    ensures
        has_pkg ==> r == Ok::<InstallQuery, Error>(InstallQuery::FromPackage),
        !has_pkg && offline ==> r == Err::<InstallQuery, Error>(Error::OfflineRequiresPackage),
        !has_pkg && !offline ==> r == Ok::<InstallQuery, Error>(
            match *target {
                ToolChain::Latest => InstallQuery::LatestVersion,
                ToolChain::Version(v) => InstallQuery::PinnedVersion(v),
                ToolChain::Local => InstallQuery::BuildLocal,
                ToolChain::Nightly => InstallQuery::FetchNightly,
            },
        ),
{
    if has_pkg {
        Ok(InstallQuery::FromPackage)
    } else if offline {
        Err(Error::OfflineRequiresPackage)
    } else {
        match target {
            ToolChain::Latest => Ok(InstallQuery::LatestVersion),
            ToolChain::Version(v) => Ok(InstallQuery::PinnedVersion(*v)),
            ToolChain::Local => Ok(InstallQuery::BuildLocal),
            ToolChain::Nightly => Ok(InstallQuery::FetchNightly),
        }
    }
}

/// The decision over a supplied package.
#[derive(Clone, Copy, Debug, PartialEq, Eq, Structural)]
pub enum PackagePlan {
    /// The package is not newer than what is installed: nothing to do.
    UpToDate,
    /// Extract the package into the target's directory.
    Extract,
}

/// Decide over a supplied package: skip when it is not newer than the
/// installed version; reject it when a pinned target disagrees with the
/// package's own version; extract otherwise.
pub fn plan_from_package(
    target: &ToolChain,
    pkg_version: &Version,
    actual: Option<&Version>,
) -> (r: Result<PackagePlan, Error>)
    ensures
        ({
            let uptodate = actual matches Some(a) && version_le(*pkg_version, *a);
            let mismatch = *target matches ToolChain::Version(x) && x != *pkg_version;
            &&& uptodate ==> r == Ok::<PackagePlan, Error>(PackagePlan::UpToDate)
            &&& !uptodate && mismatch ==> r == Err::<PackagePlan, Error>(Error::PackageMismatch)
            &&& !uptodate && !mismatch ==> r == Ok::<PackagePlan, Error>(PackagePlan::Extract)
        }),
{
    if let Some(a) = actual {
        if pkg_version.le(a) {
            return Ok(PackagePlan::UpToDate);
        }
    }
    if let ToolChain::Version(x) = target {
        if !(x == pkg_version) {
            return Err(Error::PackageMismatch);
        }
    }
    Ok(PackagePlan::Extract)
}

/// Decide for the `latest` target: download the latest published release
/// unless the installed binary already reports exactly that version.
pub fn plan_latest(latest: &Version, actual: Option<&Version>) -> (r: Option<Version>)
    ensures
        r == (if actual matches Some(a) && a == latest {
            None::<Version>
        } else {
            Some(*latest)
        }),
{
    if let Some(a) = actual {
        if a == latest {
            return None;
        }
    }
    Some(*latest)
}

/// Decide for a pinned release: download it unless the installed binary
/// already reports exactly the pinned version.
pub fn plan_pinned(pin: &Version, actual: Option<&Version>) -> (r: Option<Version>)
    ensures
        r == (if actual matches Some(a) && a == pin {
            None::<Version>
        } else {
            Some(*pin)
        }),
{
    if let Some(a) = actual {
        if a == pin {
            return None;
        }
    }
    Some(*pin)
}

/// Check an uninstall request: only an installed toolchain can be
/// uninstalled; the caller then removes its directory.
pub fn check_uninstall(target: &ToolChain, installed: &Vec<ToolChain>) -> (r: Result<(), Error>)
    ensures
        installed@.contains(*target) <==> r is Ok,
        !installed@.contains(*target) ==> r == Err::<(), Error>(Error::NotFound),
{
    if contains_toolchain(installed, target) {
        Ok(())
    } else {
        Err(Error::NotFound)
    }
}

/// The directory names with every occurrence of one name left out: the
/// listing as it is after that directory is removed.
pub open spec fn drop_name(names: Seq<Seq<char>>, bad: Seq<char>) -> Seq<Seq<char>>
    decreases names.len(),
{
    if names.len() == 0 {
        names
    } else {
        let rest = drop_name(names.drop_last(), bad);
        if names.last() == bad {
            rest
        } else {
            rest.push(names.last())
        }
    }
}

/// Every toolchain in a listing comes from one of the listed names.
pub proof fn lemma_listing_members(names: Seq<Seq<char>>, t: ToolChain)
    requires
        names_to_toolchains(names).contains(t),
    ensures
        exists|i: int| 0 <= i < names.len() && names[i] == spec_name(t),
    decreases names.len(),
{
    let l = names_to_toolchains(names);
    let rest = names_to_toolchains(names.drop_last());
    if names.len() == 0 {
    } else {
        if exists|x: ToolChain| spec_name(x) == names.last() {
            let x = choose|x: ToolChain| spec_name(x) == names.last();
            assert(l == rest.push(x));
            if t == x {
                assert(names[names.len() - 1] == spec_name(t));
            } else {
                assert(rest.contains(t)) by {
                    let j = choose|j: int| 0 <= j < l.len() && l[j] == t;
                    assert(j < rest.len());
                    assert(rest[j] == t);
                }
                lemma_listing_members(names.drop_last(), t);
                let i = choose|i: int|
                    0 <= i < names.drop_last().len() && names.drop_last()[i] == spec_name(t);
                assert(names[i] == spec_name(t));
            }
        } else {
            lemma_listing_members(names.drop_last(), t);
            let i = choose|i: int|
                0 <= i < names.drop_last().len() && names.drop_last()[i] == spec_name(t);
            assert(names[i] == spec_name(t));
        }
    }
}

/// Uninstalling removes the toolchain from every later listing: once its
/// directory name is gone, no remaining name parses to it.
pub proof fn lemma_uninstall_removes(names: Seq<Seq<char>>, t: ToolChain)
    ensures
        !names_to_toolchains(drop_name(names, spec_name(t))).contains(t),
{
    let kept = drop_name(names, spec_name(t));
    if names_to_toolchains(kept).contains(t) {
        lemma_listing_members(kept, t);
        let i = choose|i: int| 0 <= i < kept.len() && kept[i] == spec_name(t);
        lemma_drop_name_members(names, spec_name(t), i);
    }
}

/// No entry of `drop_name(names, bad)` is `bad`.
proof fn lemma_drop_name_members(names: Seq<Seq<char>>, bad: Seq<char>, i: int)
    requires
        0 <= i < drop_name(names, bad).len(),
    ensures
        drop_name(names, bad)[i] != bad,
    decreases names.len(),
{
    if names.len() > 0 {
        let rest = drop_name(names.drop_last(), bad);
        if names.last() == bad {
            lemma_drop_name_members(names.drop_last(), bad, i);
        } else {
            if i < rest.len() {
                lemma_drop_name_members(names.drop_last(), bad, i);
            }
        }
    }
}

/// The local source checkout provides the tool suite exactly when one of
/// its package names is a tool name.
pub fn check_tool_repository(package_names: &Vec<String>) -> (r: Result<(), Error>)
    ensures
        (exists|i: int|
            0 <= i < package_names@.len() && ((#[trigger] package_names@[i])@ == "veryl"@
                || package_names@[i]@ == "veryl-ls"@)) <==> r is Ok,
        r is Err ==> r == Err::<(), Error>(Error::NotAToolRepository),
{
    let n = package_names.len();
    let mut i: usize = 0;
    while i < n
        invariant
            n == package_names@.len(),
            0 <= i <= n,
            forall|k: int|
                0 <= k < i ==> !((#[trigger] package_names@[k])@ == "veryl"@
                    || package_names@[k]@ == "veryl-ls"@),
        decreases n - i,
    {
        let name = &package_names[i];
        if str_eq(name.as_str(), "veryl") || str_eq(name.as_str(), "veryl-ls") {
            return Ok(());
        }
        i += 1;
    }
    proof {
        if exists|i: int|
            0 <= i < package_names@.len() && ((#[trigger] package_names@[i])@ == "veryl"@
                || package_names@[i]@ == "veryl-ls"@) {
            let k = choose|k: int|
                0 <= k < package_names@.len() && ((#[trigger] package_names@[k])@ == "veryl"@
                    || package_names@[k]@ == "veryl-ls"@);
        }
    }
    Err(Error::NotAToolRepository)
}

/// The build profile of a local build.
#[derive(Clone, Copy, Debug, PartialEq, Eq, Structural)]
pub enum BuildProfile {
    /// A plain debug build.
    Debug,
    /// The tool repository's dedicated release profile.
    ReleaseVerylup,
    /// A plain release build.
    Release,
}

/// Choose the local build profile: debug when asked; else the dedicated
/// release profile when the workspace manifest declares it; else a plain
/// release build.
pub fn choose_build_profile(debug: bool, manifest: &str) -> (r: BuildProfile)
    ensures
        debug ==> r is Debug,
        !debug && contains_seq(manifest@, "[profile.release-verylup]"@) ==> r is ReleaseVerylup,
        !debug && !contains_seq(manifest@, "[profile.release-verylup]"@) ==> r is Release,
{
    if debug {
        BuildProfile::Debug
    } else if str_contains(manifest, "[profile.release-verylup]") {
        BuildProfile::ReleaseVerylup
    } else {
        BuildProfile::Release
    }
}

impl BuildProfile {
    /// The build tool's arguments for this profile.
    pub fn build_args(&self) -> (r: Vec<String>)
        ensures
            *self is Debug ==> r@.len() == 1 && r@[0]@ == "build"@,
            *self is ReleaseVerylup ==> r@.len() == 3 && r@[0]@ == "build"@ && r@[1]@
                == "--profile"@ && r@[2]@ == "release-verylup"@,
            *self is Release ==> r@.len() == 2 && r@[0]@ == "build"@ && r@[1]@ == "--release"@,
    {
        let mut out: Vec<String> = Vec::new();
        out.push("build".to_owned());
        match self {
            BuildProfile::Debug => {},
            BuildProfile::ReleaseVerylup => {
                out.push("--profile".to_owned());
                out.push("release-verylup".to_owned());
            },
            BuildProfile::Release => {
                out.push("--release".to_owned());
            },
        }
        out
    }

    /// The build output subdirectory this profile writes to.
    pub fn target_subdir(&self) -> (r: &'static str)
        ensures
            *self is Debug ==> r@ == "debug"@,
            *self is ReleaseVerylup ==> r@ == "release-verylup"@,
            *self is Release ==> r@ == "release"@,
    {
        match self {
            BuildProfile::Debug => "debug",
            BuildProfile::ReleaseVerylup => "release-verylup",
            BuildProfile::Release => "release",
        }
    }
}

/// The version text a local build is stamped with: the package version,
/// the source revision and the build date.
pub fn local_version_string(version: &str, revision: &str, date: &str) -> (r: String)
    ensures
        r@ == version@ + "-local ("@ + revision@ + " "@ + date@ + ")"@,
{
    let mut out = String::new();
    out.append(version);
    out.append("-local (");
    out.append(revision);
    out.append(" ");
    out.append(date);
    out.append(")");
    proof {
        assert(out@ =~= version@ + "-local ("@ + revision@ + " "@ + date@ + ")"@);
    }
    out
}

/// `i` is the position of the last `c` in `s`.
pub open spec fn is_last_at(s: Seq<char>, c: char, i: int) -> bool {
    0 <= i < s.len() && s[i] == c && forall|j: int| i < j < s.len() ==> s[j] != c
}

/// A file name with its extension replaced by `new`: everything after the
/// last dot is dropped, and `.new` appended; a name without a dot gets
/// `.new` appended whole.
pub open spec fn spec_staging_name(s: Seq<char>) -> Seq<char> {
    if exists|i: int| is_last_at(s, '.', i) {
        s.subrange(0, choose|i: int| is_last_at(s, '.', i)) + ".new"@
    } else {
        s + ".new"@
    }
}

/// The last position of a character is unique.
proof fn lemma_last_at_unique(s: Seq<char>, c: char, i1: int, i2: int)
    requires
        is_last_at(s, c, i1),
        is_last_at(s, c, i2),
    ensures
        i1 == i2,
{
}

/// One staged binary replacement: copy the built file to a staging name
/// inside the destination directory, then rename it over the target name.
/// Renaming within one directory replaces the target atomically, so a
/// possibly executing binary is never overwritten in place.
pub struct ReplaceStep {
    /// The built file to take.
    pub source: String,
    /// The temporary name beside the target.
    pub staging: String,
    /// The installed name to replace.
    pub target: String,
}

/// The staged installation plan for the built tool files: one
/// copy-then-rename step per file, in order.
pub fn stage_steps(bin_dir: &str, dest_dir: &str, files: &Vec<String>) -> (r: Vec<ReplaceStep>)
    ensures
        r@.len() == files@.len(),
        forall|i: int|
            0 <= i < r@.len() ==> {
                &&& (#[trigger] r@[i]).source@ == bin_dir@ + "/"@ + files@[i]@
                &&& r@[i].target@ == dest_dir@ + "/"@ + files@[i]@
                &&& r@[i].staging@ == dest_dir@ + "/"@ + spec_staging_name(files@[i]@)
            },
{
    let mut out: Vec<ReplaceStep> = Vec::new();
    let n = files.len();
    let mut k: usize = 0;
    while k < n
        invariant
            n == files@.len(),
            0 <= k <= n,
            out@.len() == k,
            forall|i: int|
                0 <= i < k ==> {
                    &&& (#[trigger] out@[i]).source@ == bin_dir@ + "/"@ + files@[i]@
                    &&& out@[i].target@ == dest_dir@ + "/"@ + files@[i]@
                    &&& out@[i].staging@ == dest_dir@ + "/"@ + spec_staging_name(files@[i]@)
                },
        decreases n - k,
    {
        let f = &files[k];
        let mut source = String::new();
        source.append(bin_dir);
        source.append("/");
        source.append(f.as_str());
        let mut target = String::new();
        target.append(dest_dir);
        target.append("/");
        target.append(f.as_str());
        let mut staging = String::new();
        staging.append(dest_dir);
        staging.append("/");
        match rfind_char(f.as_str(), '.') {
            Some(i) => {
                let stem = f.as_str().substring_char(0, i);
                staging.append(stem);
                proof {
                    assert(is_last_at(f@, '.', i as int));
                    let i2 = choose|i2: int| is_last_at(f@, '.', i2);
                    lemma_last_at_unique(f@, '.', i as int, i2);
                }
            },
            None => {
                staging.append(f.as_str());
                proof {
                    if exists|i2: int| is_last_at(f@, '.', i2) {
                        let i2 = choose|i2: int| is_last_at(f@, '.', i2);
                    }
                }
            },
        }
        staging.append(".new");
        let step = ReplaceStep { source, staging, target };
        out.push(step);
        proof {
            assert(out@[k as int].staging@ =~= dest_dir@ + "/"@ + spec_staging_name(files@[
            k as int]@));
            assert(out@[k as int].source@ =~= bin_dir@ + "/"@ + files@[k as int]@);
            assert(out@[k as int].target@ =~= dest_dir@ + "/"@ + files@[k as int]@);
        }
        k += 1;
    }
    out
}

} // verus!
