use vstd::prelude::*;

use crate::config::spec_lookup;
use crate::config::Config;
use crate::toolchain::lemma_name_injective;
use crate::toolchain::spec_name;
use crate::toolchain::toolchains_sorted;
use crate::toolchain::ToolChain;

verus! {

/// The toolchain a name denotes, provided that toolchain is installed.
///
/// Membership in the installed list stands for the existence of the
/// toolchain's directory: the list is the parse of the base directory's
/// entries.
pub open spec fn spec_by_name(name: Seq<char>, installed: Seq<ToolChain>) -> Option<ToolChain> {
    if exists|t: ToolChain| installed.contains(t) && spec_name(t) == name {
        Some(choose|t: ToolChain| installed.contains(t) && spec_name(t) == name)
    } else {
        None
    }
}

/// The override name the configuration maps the current project to.
pub open spec fn spec_override_name(c: Config, project: Option<Seq<char>>) -> Option<Seq<char>> {
    match project {
        Some(p) => spec_lookup(c.overrides@, p),
        None => None,
    }
}

/// The configured default toolchain name.
pub open spec fn spec_default_name(c: Config) -> Option<Seq<char>> {
    match c.default_toolchain {
        Some(s) => Some(s@),
        None => None,
    }
}

/// The resolution rule: the project override when it names an installed
/// toolchain, else the configured default when it names an installed one,
/// else the highest-ordered installed toolchain, else nothing.
///
/// The installed list is sorted ascending, so its last entry is the
/// highest-ordered one (`lemma_sorted_last_is_max`).
pub open spec fn spec_resolve(
    ov: Option<Seq<char>>,
    df: Option<Seq<char>>,
    installed: Seq<ToolChain>,
) -> Option<ToolChain> {
    let from_override = match ov {
        Some(n) => spec_by_name(n, installed),
        None => None,
    };
    let from_default = match df {
        Some(n) => spec_by_name(n, installed),
        None => None,
    };
    if from_override is Some {
        from_override
    } else if from_default is Some {
        from_default
    } else if installed.len() > 0 {
        Some(installed.last())
    } else {
        None
    }
}

/// Resolution never yields a toolchain that is not installed: every branch
/// of the rule gates on membership in the installed list.
pub proof fn lemma_resolution_installed(
    ov: Option<Seq<char>>,
    df: Option<Seq<char>>,
    installed: Seq<ToolChain>,
)
    ensures
        spec_resolve(ov, df, installed) matches Some(t) ==> installed.contains(t),
{
    if spec_resolve(ov, df, installed) matches Some(t) {
        if installed.len() > 0 {
            assert(installed[installed.len() - 1] == installed.last());
        }
    }
}

/// The view of an optional project path.
pub open spec fn spec_project(project: Option<&String>) -> Option<Seq<char>> {
    match project {
        Some(p) => Some(p@),
        None => None,
    }
}

/// Whether the list holds this toolchain.
pub fn contains_toolchain(v: &Vec<ToolChain>, t: &ToolChain) -> (r: bool)
    ensures
        r == v@.contains(*t),
{
    let n = v.len();
    let mut i: usize = 0;
    while i < n
        invariant
            n == v@.len(),
            0 <= i <= n,
            forall|k: int| 0 <= k < i ==> v@[k] != *t,
        decreases n - i,
    {
        if v[i] == *t {
            return true;
        }
        i += 1;
    }
    false
}

/// Look a toolchain up by name among the installed ones: the name must
/// parse and the toolchain must be installed.
pub fn by_name(name: &str, installed: &Vec<ToolChain>) -> (r: Option<ToolChain>)
    ensures
        r == spec_by_name(name@, installed@),
{
    match ToolChain::parse(name) {
        Ok(t) => {
            if contains_toolchain(installed, &t) {
                proof {
                    assert(installed@.contains(t) && spec_name(t) == name@);
                    let t2 = choose|t2: ToolChain|
                        installed@.contains(t2) && spec_name(t2) == name@;
                    lemma_name_injective(t, t2);
                }
                Some(t)
            } else {
                proof {
                    if exists|t2: ToolChain| installed@.contains(t2) && spec_name(t2) == name@ {
                        let t2 = choose|t2: ToolChain|
                            installed@.contains(t2) && spec_name(t2) == name@;
                        lemma_name_injective(t, t2);
                    }
                }
                None
            }
        },
        Err(_) => {
            proof {
                if exists|t2: ToolChain| installed@.contains(t2) && spec_name(t2) == name@ {
                    let t2 = choose|t2: ToolChain|
                        installed@.contains(t2) && spec_name(t2) == name@;
                    assert(spec_name(t2) == name@);
                }
            }
            None
        },
    }
}

/// Compute the effective default toolchain for this invocation.
///
/// Precedence: a directory override for the current project, then the
/// configured default, then the highest-ordered installed toolchain; each
/// of the first two counts only when it names an installed toolchain.  The
/// result, when there is one, is always installed.
pub fn resolve_default(
    config: &Config,
    project: Option<&String>,
    installed: &Vec<ToolChain>,
) -> (r: Option<ToolChain>)
    requires
        config.wf(),
        toolchains_sorted(installed@),
    ensures
        r == spec_resolve(
            spec_override_name(*config, spec_project(project)),
            spec_default_name(*config),
            installed@,
        ),
        r matches Some(t) ==> installed@.contains(t),
{
    let ghost ov = spec_override_name(*config, spec_project(project));
    let ghost df = spec_default_name(*config);
    let mut from_override: Option<ToolChain> = None;
    match project {
        Some(p) => {
            match config.get_override(p.as_str()) {
                Some(name) => {
                    proof {
                        assert(ov == Some(name@));
                    }
                    from_override = by_name(name.as_str(), installed);
                },
                None => {
                    proof {
                        assert(ov is None);
                    }
                },
            }
        },
        None => {},
    }
    if let Some(t) = from_override {
        proof {
            lemma_resolution_installed(ov, df, installed@);
        }
        return Some(t);
    }
    let mut from_default: Option<ToolChain> = None;
    match &config.default_toolchain {
        Some(name) => {
            from_default = by_name(name.as_str(), installed);
        },
        None => {},
    }
    if let Some(t) = from_default {
        proof {
            lemma_resolution_installed(ov, df, installed@);
        }
        return Some(t);
    }
    if installed.len() > 0 {
        let t = installed[installed.len() - 1];
        proof {
            assert(installed@[installed@.len() - 1] == installed@.last());
        }
        Some(t)
    } else {
        None
    }
}

} // verus!
