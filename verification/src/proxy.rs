use vstd::prelude::*;

use crate::config::Config;
use crate::error::Error;
use crate::req::lemma_req_text_injective;
use crate::req::spec_req_matches;
use crate::req::spec_req_text;
use crate::req::VersionReq;
use crate::resolve::contains_toolchain;
use crate::resolve::resolve_default;
use crate::resolve::spec_default_name;
use crate::resolve::spec_override_name;
use crate::resolve::spec_project;
use crate::resolve::spec_resolve;
use crate::toolchain::lemma_name_injective;
use crate::toolchain::spec_name;
use crate::toolchain::toolchains_sorted;
use crate::toolchain::ToolChain;

verus! {

/// The highest-ordered installed release version satisfying a range:
/// installed toolchains are scanned highest first, and only pinned release
/// versions can satisfy a range.
pub open spec fn spec_pin_fallback(q: VersionReq, installed: Seq<ToolChain>) -> Option<ToolChain>
    decreases installed.len(),
{
    if installed.len() == 0 {
        None
    } else {
        match installed.last() {
            ToolChain::Version(v) => if spec_req_matches(q, v) {
                Some(installed.last())
            } else {
                spec_pin_fallback(q, installed.drop_last())
            },
            _ => spec_pin_fallback(q, installed.drop_last()),
        }
    }
}

/// The toolchain a pin denotes: a canonical toolchain name; failing that,
/// a version-range expression selecting among the installed versions.
pub open spec fn spec_pin(s: Seq<char>, installed: Seq<ToolChain>) -> Option<ToolChain> {
    if exists|t: ToolChain| spec_name(t) == s {
        Some(choose|t: ToolChain| spec_name(t) == s)
    } else if exists|q: VersionReq| q.wf() && spec_req_text(q) == s {
        spec_pin_fallback(choose|q: VersionReq| q.wf() && spec_req_text(q) == s, installed)
    } else {
        None
    }
}

/// Resolve a pin: parse it as a toolchain name, or fall back to a version
/// range matched against the installed versions, highest first.  A pin
/// that is neither, or a range nothing satisfies, is a parse failure.
pub fn pin_toolchain(s: &str, installed: &Vec<ToolChain>) -> (r: Result<ToolChain, Error>)
    ensures
        r == match spec_pin(s@, installed@) {
            Some(t) => Ok::<ToolChain, Error>(t),
            None => Err::<ToolChain, Error>(Error::ParseError),
        },
{
    match ToolChain::parse(s) {
        Ok(t) => {
            proof {
                let t2 = choose|t2: ToolChain| spec_name(t2) == s@;
                lemma_name_injective(t, t2);
            }
            Ok(t)
        },
        Err(_) => {
            proof {
                if exists|t2: ToolChain| spec_name(t2) == s@ {
                    let t2 = choose|t2: ToolChain| spec_name(t2) == s@;
                    assert(spec_name(t2) == s@);
                }
            }
            match VersionReq::parse(s) {
                Ok(q) => {
                    proof {
                        let q2 = choose|q2: VersionReq| q2.wf() && spec_req_text(q2) == s@;
                        lemma_req_text_injective(q, q2);
                    }
                    let n = installed.len();
                    let mut i: usize = n;
                    proof {
                        assert(installed@.subrange(0, n as int) =~= installed@);
                    }
                    while i > 0
                        invariant
                            n == installed@.len(),
                            0 <= i <= n,
                            spec_pin(s@, installed@) == spec_pin_fallback(q, installed@),
                            spec_pin_fallback(q, installed@) == spec_pin_fallback(
                                q,
                                installed@.subrange(0, i as int),
                            ),
                        decreases i,
                    {
                        i -= 1;
                        let ghost upto = installed@.subrange(0, i + 1);
                        proof {
                            assert(upto.last() == installed@[i as int]);
                            assert(upto.drop_last() =~= installed@.subrange(0, i as int));
                        }
                        match &installed[i] {
                            ToolChain::Version(v) => {
                                if q.matches(v) {
                                    return Ok(installed[i]);
                                }
                            },
                            _ => {},
                        }
                    }
                    proof {
                        assert(installed@.subrange(0, 0).len() == 0);
                    }
                    Err(Error::ParseError)
                },
                Err(_) => {
                    proof {
                        if exists|q2: VersionReq| q2.wf() && spec_req_text(q2) == s@ {
                            let q2 = choose|q2: VersionReq| q2.wf() && spec_req_text(q2) == s@;
                            assert(q2.wf() && spec_req_text(q2) == s@);
                        }
                    }
                    Err(Error::ParseError)
                },
            }
        },
    }
}

/// The first argument is a toolchain pin when it starts with `+`.
pub open spec fn spec_has_pin(args: Seq<String>) -> bool {
    args.len() > 0 && args[0]@.len() > 0 && args[0]@[0] == '+'
}

/// The toolchain a proxy invocation dispatches into: the pin when one is
/// given, else the resolution engine's effective default.
pub open spec fn spec_proxy_toolchain(
    args: Seq<String>,
    config: Config,
    project: Option<Seq<char>>,
    installed: Seq<ToolChain>,
) -> Option<ToolChain> {
    if spec_has_pin(args) {
        spec_pin(args[0]@.drop_first(), installed)
    } else {
        spec_resolve(
            spec_override_name(config, project),
            spec_default_name(config),
            installed,
        )
    }
}

/// The arguments forwarded to the underlying tool: everything the user
/// supplied, minus the consumed pin token.
pub open spec fn spec_rest_args(args: Seq<String>) -> Seq<String> {
    if spec_has_pin(args) {
        args.drop_first()
    } else {
        args
    }
}

/// The views of a list of argument strings.
pub open spec fn arg_views(args: Seq<String>) -> Seq<Seq<char>> {
    args.map_values(|a: String| a@)
}

/// A planned child invocation: the tool binary inside the chosen
/// toolchain's directory, and the forwarded arguments, unchanged and in
/// order.
#[derive(Clone, Debug, PartialEq, Eq)]
pub struct ProxyCommand {
    /// The path of the binary to run or replace this process with.
    pub program: String,
    /// The arguments to pass, exactly as the user supplied them.
    pub args: Vec<String>,
}

/// Plan a proxy dispatch for an invocation under the tool name `arg0`.
///
/// A leading `+` argument pins the toolchain and is consumed; otherwise
/// the effective default is resolved.  The chosen toolchain must be
/// installed.  The planned program is `<base>/<toolchain-name>/<arg0>`,
/// and the forwarded arguments are byte-identical to the ones given.
pub fn plan_proxy(
    arg0: &str,
    args: &Vec<String>,
    base_dir: &str,
    config: &Config,
    project: Option<&String>,
    installed: &Vec<ToolChain>,
) -> (r: Result<ProxyCommand, Error>)
    requires
        config.wf(),
        toolchains_sorted(installed@),
    ensures
        match spec_proxy_toolchain(args@, *config, spec_project(project), installed@) {
            Some(t) => if installed@.contains(t) {
                r matches Ok(cmd) && cmd.program@ == base_dir@ + "/"@ + spec_name(t) + "/"@
                    + arg0@ && arg_views(cmd.args@) == arg_views(spec_rest_args(args@))
            } else {
                r == Err::<ProxyCommand, Error>(Error::NotFound)
            },
            None => r == Err::<ProxyCommand, Error>(
                if spec_has_pin(args@) {
                    Error::ParseError
                } else {
                    Error::NotFound
                },
            ),
        },
{
    let has_pin = if args.len() > 0 {
        let first = &args[0];
        if first.unicode_len() > 0 {
            first.as_str().get_char(0) == '+'
        } else {
            false
        }
    } else {
        false
    };
    proof {
        assert(has_pin == spec_has_pin(args@));
    }
    let chosen: ToolChain;
    let skip: usize;
    if has_pin {
        let first = &args[0];
        let pin = first.as_str().substring_char(1, first.unicode_len());
        proof {
            assert(pin@ =~= args@[0]@.drop_first());
        }
        match pin_toolchain(pin, installed) {
            Ok(t) => {
                chosen = t;
                skip = 1;
            },
            Err(e) => {
                return Err(e);
            },
        }
    } else {
        match resolve_default(config, project, installed) {
            Some(t) => {
                chosen = t;
                skip = 0;
            },
            None => {
                return Err(Error::NotFound);
            },
        }
    }
    if !contains_toolchain(installed, &chosen) {
        return Err(Error::NotFound);
    }
    let program = chosen.tool_path(base_dir, arg0);
    let mut rest: Vec<String> = Vec::new();
    let mut i: usize = skip;
    while i < args.len()
        invariant
            skip <= i <= args@.len(),
            rest@.len() == i - skip,
            forall|k: int| 0 <= k < rest@.len() ==> (#[trigger] rest@[k])@ == args@[skip + k]@,
        decreases args@.len() - i,
    {
        rest.push(args[i].clone());
        i += 1;
    }
    proof {
        if has_pin {
            assert(arg_views(rest@) =~= arg_views(spec_rest_args(args@))) by {
                assert(spec_rest_args(args@) == args@.drop_first());
                assert(forall|k: int|
                    0 <= k < args@.drop_first().len() ==> (#[trigger] args@.drop_first()[k])@
                        == args@[1 + k]@);
            }
        } else {
            assert(arg_views(rest@) =~= arg_views(spec_rest_args(args@)));
        }
    }
    Ok(ProxyCommand { program, args: rest })
}

} // verus!
