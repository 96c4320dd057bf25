use vstd::prelude::*;

use crate::error::Error;
use crate::release::get_archive_url;
use crate::release::spec_archive_url;
use crate::release::spec_target_suffix;
use crate::version::version_lt;
use crate::version::Version;

verus! {

/// The self-update decision.
#[derive(Clone, Debug, PartialEq, Eq)]
pub enum SelfUpdatePlan {
    /// Self-update is disabled by configuration: skip entirely.
    Disabled,
    /// The running manager is already at the latest published version.
    UpToDate,
    /// Download the manager's own archive from this URL, replace the
    /// running executable, and relink the proxied tool names.
    Update(String),
}

/// Decide the self-update: skipped when disabled, a no-op unless the
/// published version is strictly newer than the running one, and otherwise
/// an update from the manager's own release archive.
pub fn plan_self_update(
    self_update: bool,
    current: &Version,
    latest: &Version,
    triple: &str,
) -> (r: Result<SelfUpdatePlan, Error>)
    ensures
        !self_update ==> r == Ok::<SelfUpdatePlan, Error>(SelfUpdatePlan::Disabled),
        self_update && !version_lt(*current, *latest) ==> r == Ok::<SelfUpdatePlan, Error>(
            SelfUpdatePlan::UpToDate,
        ),
        self_update && version_lt(*current, *latest) ==> match spec_target_suffix(triple@) {
            Some(sfx) => r matches Ok(p) && p matches SelfUpdatePlan::Update(u) && u@
                == spec_archive_url("verylup"@, *latest, sfx),
            None => r == Err::<SelfUpdatePlan, Error>(Error::UnsupportedPlatform),
        },
{
    if !self_update {
        Ok(SelfUpdatePlan::Disabled)
    } else if !current.lt(latest) {
        Ok(SelfUpdatePlan::UpToDate)
    } else {
        match get_archive_url("verylup", latest, triple) {
            Ok(url) => Ok(SelfUpdatePlan::Update(url)),
            Err(e) => Err(e),
        }
    }
}

/// One republish step for a proxied tool name: hardlink the manager's
/// binary to a staging name in its own directory, then rename the staging
/// name over the tool name.  The rename replaces atomically, so the tool
/// name is never missing.
pub struct LinkStep {
    /// The temporary link name.
    pub staging: String,
    /// The tool entry point to republish.
    pub dest: String,
}

/// The republish plan: one staged link per proxied tool name, `.exe`
/// appended on Windows targets.
pub fn relink_steps(dir: &str, windows: bool) -> (r: Vec<LinkStep>)
    ensures
        r@.len() == 2,
        ({
            let ext = if windows {
                ".exe"@
            } else {
                Seq::<char>::empty()
            };
            &&& r@[0].dest@ == dir@ + "/veryl"@ + ext
            &&& r@[1].dest@ == dir@ + "/veryl-ls"@ + ext
            &&& r@[0].staging@ == r@[0].dest@ + ".new"@
            &&& r@[1].staging@ == r@[1].dest@ + ".new"@
        }),
{
    let ghost ext = if windows {
        ".exe"@
    } else {
        Seq::<char>::empty()
    };
    let mut out: Vec<LinkStep> = Vec::new();
    let mut dest0 = String::new();
    dest0.append(dir);
    dest0.append("/veryl");
    if windows {
        dest0.append(".exe");
    }
    let mut staging0 = dest0.clone();
    staging0.append(".new");
    proof {
        assert(dest0@ =~= dir@ + "/veryl"@ + ext);
    }
    out.push(LinkStep { staging: staging0, dest: dest0 });
    let mut dest1 = String::new();
    dest1.append(dir);
    dest1.append("/veryl-ls");
    if windows {
        dest1.append(".exe");
    }
    let mut staging1 = dest1.clone();
    staging1.append(".new");
    proof {
        assert(dest1@ =~= dir@ + "/veryl-ls"@ + ext);
    }
    out.push(LinkStep { staging: staging1, dest: dest1 });
    out
}

/// A model of the manager's directory: each name maps to the identity of
/// the file content it resolves to.  Republishing one name points it at
/// the manager's own content.
pub open spec fn apply_relink(
    dir: Map<Seq<char>, nat>,
    names: Seq<Seq<char>>,
    manager: nat,
) -> Map<Seq<char>, nat>
    decreases names.len(),
{
    if names.len() == 0 {
        dir
    } else {
        apply_relink(dir, names.drop_last(), manager).insert(names.last(), manager)
    }
}

/// After relinking, every proxied tool name resolves to content identical
/// to the manager's own binary; every other name is untouched, and no name
/// that existed before is missing afterwards.
pub proof fn lemma_relink_publishes(dir: Map<Seq<char>, nat>, names: Seq<Seq<char>>, manager: nat)
    ensures
        forall|i: int|
            0 <= i < names.len() ==> apply_relink(dir, names, manager).contains_key(
                #[trigger] names[i],
            ) && apply_relink(dir, names, manager)[names[i]] == manager,
        forall|k: Seq<char>|
            !names.contains(k) && dir.contains_key(k) ==> apply_relink(
                dir,
                names,
                manager,
            ).contains_key(k) && apply_relink(dir, names, manager)[k] == dir[k],
        forall|k: Seq<char>|
            dir.contains_key(k) ==> apply_relink(dir, names, manager).contains_key(k),
    decreases names.len(),
{
    if names.len() > 0 {
        let prev = names.drop_last();
        lemma_relink_publishes(dir, prev, manager);
        assert forall|i: int|
            0 <= i < names.len() implies apply_relink(dir, names, manager).contains_key(
            #[trigger] names[i],
        ) && apply_relink(dir, names, manager)[names[i]] == manager by {
            if i < names.len() - 1 && names[i] != names.last() {
                assert(prev[i] == names[i]);
            }
        }
        assert forall|k: Seq<char>|
            !names.contains(k) && dir.contains_key(k) implies apply_relink(
            dir,
            names,
            manager,
        ).contains_key(k) && apply_relink(dir, names, manager)[k] == dir[k] by {
            assert(k != names.last()) by {
                if k == names.last() {
                    assert(names[names.len() - 1] == k);
                }
            }
            assert(!prev.contains(k)) by {
                if prev.contains(k) {
                    let j = choose|j: int| 0 <= j < prev.len() && prev[j] == k;
                    assert(names[j] == k);
                }
            }
        }
    }
}

} // verus!
