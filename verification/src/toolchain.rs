use vstd::prelude::*;

use crate::error::Error;
use crate::num::is_digit;
use crate::text::str_eq;
use crate::version::spec_version_str;
use crate::version::version_lt;
use crate::version::lemma_version_str_facts;
use crate::version::lemma_version_str_injective;
use crate::version::Version;

verus! {

/// One installable toolchain identity.
///
/// `Version` is a pinned release; `Latest` tracks the newest release;
/// `Nightly` tracks the nightly build; `Local` is built from a source
/// checkout.
#[derive(Clone, Copy, Debug, PartialEq, Eq, Structural)]
pub enum ToolChain {
    Version(Version),
    Latest,
    Nightly,
    Local,
}

/// Rank of a toolchain's variant in the precedence order: the more
/// specific or more recently built, the higher.
pub open spec fn toolchain_rank(t: ToolChain) -> int {
    match t {
        ToolChain::Version(_) => 0,
        ToolChain::Latest => 1,
        ToolChain::Nightly => 2,
        ToolChain::Local => 3,
    }
}

/// Strict order: every release version below `Latest`, `Latest` below
/// `Nightly`, `Nightly` below `Local`; versions among themselves by
/// precedence.
pub open spec fn toolchain_lt(a: ToolChain, b: ToolChain) -> bool {
    if toolchain_rank(a) != toolchain_rank(b) {
        toolchain_rank(a) < toolchain_rank(b)
    } else {
        match (a, b) {
            (ToolChain::Version(x), ToolChain::Version(y)) => version_lt(x, y),
            _ => false,
        }
    }
}

/// Non-strict toolchain order.
pub open spec fn toolchain_le(a: ToolChain, b: ToolChain) -> bool {
    toolchain_lt(a, b) || a == b
}

/// The toolchain order is a strict total order.
///
/// Irreflexive, asymmetric, transitive, and total; and the variants are
/// ordered `Version(_) < Latest < Nightly < Local` for every release
/// version.
pub proof fn lemma_toolchain_order_strict_total(a: ToolChain, b: ToolChain, c: ToolChain)
    ensures
        !toolchain_lt(a, a),
        toolchain_lt(a, b) ==> !toolchain_lt(b, a),
        toolchain_lt(a, b) && toolchain_lt(b, c) ==> toolchain_lt(a, c),
        toolchain_lt(a, b) || toolchain_lt(b, a) || a == b,
        forall|x: Version| toolchain_lt(ToolChain::Version(x), ToolChain::Latest),
        toolchain_lt(ToolChain::Latest, ToolChain::Nightly),
        toolchain_lt(ToolChain::Nightly, ToolChain::Local),
{
}

/// The canonical name of a toolchain: its directory name and its
/// command-line spelling.
pub open spec fn spec_name(t: ToolChain) -> Seq<char> {
    match t {
        ToolChain::Version(v) => spec_version_str(v),
        ToolChain::Latest => "latest"@,
        ToolChain::Nightly => "nightly"@,
        ToolChain::Local => "local"@,
    }
}

/// No two toolchains share a canonical name.
pub proof fn lemma_name_injective(a: ToolChain, b: ToolChain)
    requires
        spec_name(a) == spec_name(b),
    ensures
        a == b,
{
    reveal_strlit("latest");
    reveal_strlit("nightly");
    reveal_strlit("local");
    match (a, b) {
        (ToolChain::Version(x), ToolChain::Version(y)) => {
            lemma_version_str_injective(x, y);
        },
        (ToolChain::Version(x), _) => {
            lemma_version_str_facts(x);
            assert(is_digit(spec_name(a)[0]));
        },
        (_, ToolChain::Version(y)) => {
            lemma_version_str_facts(y);
            assert(is_digit(spec_name(b)[0]));
        },
        _ => {
            assert("latest"@.len() == 6 && "nightly"@.len() == 7 && "local"@.len() == 5);
        },
    }
}

/// Round trip: a toolchain's canonical name denotes that toolchain and no
/// other.  Together with `ToolChain::parse`'s contract this says that
/// parsing the text `ToolChain::name` produces gives back exactly the
/// toolchain it came from.
pub proof fn lemma_name_round_trip(t: ToolChain)
    ensures
        forall|t2: ToolChain| spec_name(t2) == spec_name(t) <==> t2 == t,
{
    assert forall|t2: ToolChain| spec_name(t2) == spec_name(t) <==> t2 == t by {
        if spec_name(t2) == spec_name(t) {
            lemma_name_injective(t2, t);
        }
    }
}

impl ToolChain {
    /// The canonical name of this toolchain.
    pub fn name(&self) -> (r: String)
        ensures
            r@ == spec_name(*self),
    {
        match self {
            ToolChain::Version(v) => v.to_text(),
            ToolChain::Latest => "latest".to_owned(),
            ToolChain::Nightly => "nightly".to_owned(),
            ToolChain::Local => "local".to_owned(),
        }
    }

    /// Parse a canonical toolchain name: one of the three keywords, or a
    /// version text.  Every other string is rejected.
    pub fn parse(s: &str) -> (r: Result<ToolChain, Error>)
        ensures
            r matches Ok(t) ==> spec_name(t) == s@,
            forall|t: ToolChain| spec_name(t) == s@ ==> r == Ok::<ToolChain, Error>(t),
            r is Err ==> r == Err::<ToolChain, Error>(Error::ParseError),
    {
        if str_eq(s, "latest") {
            proof {
                lemma_complete(ToolChain::Latest, s@);
            }
            Ok(ToolChain::Latest)
        } else if str_eq(s, "nightly") {
            proof {
                lemma_complete(ToolChain::Nightly, s@);
            }
            Ok(ToolChain::Nightly)
        } else if str_eq(s, "local") {
            proof {
                lemma_complete(ToolChain::Local, s@);
            }
            Ok(ToolChain::Local)
        } else {
            match Version::parse(s) {
                Ok(v) => {
                    proof {
                        lemma_complete(ToolChain::Version(v), s@);
                    }
                    Ok(ToolChain::Version(v))
                },
                Err(_) => {
                    proof {
                        assert forall|t: ToolChain| spec_name(t) != s@ by {
                            if spec_name(t) == s@ {
                                match t {
                                    ToolChain::Version(v2) => {
                                        assert(spec_version_str(v2) == s@);
                                    },
                                    _ => {
                                        assert(spec_name(t) == s@);
                                    },
                                }
                            }
                        }
                    }
                    Err(Error::ParseError)
                },
            }
        }
    }

    /// Compare two toolchains in the precedence order.
    pub fn compare(&self, other: &ToolChain) -> (r: core::cmp::Ordering)
        ensures
            r is Less <==> toolchain_lt(*self, *other),
            r is Equal <==> *self == *other,
            r is Greater <==> toolchain_lt(*other, *self),
    {
        match (self, other) {
            (ToolChain::Version(x), ToolChain::Version(y)) => x.compare(y),
            (ToolChain::Version(_), _) => core::cmp::Ordering::Less,
            (_, ToolChain::Version(_)) => core::cmp::Ordering::Greater,
            (ToolChain::Latest, ToolChain::Latest) => core::cmp::Ordering::Equal,
            (ToolChain::Latest, _) => core::cmp::Ordering::Less,
            (_, ToolChain::Latest) => core::cmp::Ordering::Greater,
            (ToolChain::Nightly, ToolChain::Nightly) => core::cmp::Ordering::Equal,
            (ToolChain::Nightly, ToolChain::Local) => core::cmp::Ordering::Less,
            (ToolChain::Local, ToolChain::Nightly) => core::cmp::Ordering::Greater,
            (ToolChain::Local, ToolChain::Local) => core::cmp::Ordering::Equal,
        }
    }

    /// Non-strict comparison in the precedence order.
    pub fn le(&self, other: &ToolChain) -> (r: bool)
        ensures
            r == toolchain_le(*self, *other),
    {
        !matches!(other.compare(self), core::cmp::Ordering::Less)
    }

    /// The directory of this toolchain under the base directory that holds
    /// all installed toolchains.
    pub fn dir_path(&self, base: &str) -> (r: String)
        ensures
            r@ == base@ + "/"@ + spec_name(*self),
    {
        let mut out = String::new();
        out.append(base);
        out.append("/");
        let name = self.name();
        out.append(name.as_str());
        out
    }

    /// The path of one tool binary inside this toolchain's directory.
    pub fn tool_path(&self, base: &str, bin: &str) -> (r: String)
        ensures
            r@ == base@ + "/"@ + spec_name(*self) + "/"@ + bin@,
    {
        let mut out = self.dir_path(base);
        out.append("/");
        out.append(bin);
        out
    }
}

/// Completeness helper: if `t`'s name is `s`, no other toolchain's name is.
proof fn lemma_complete(t: ToolChain, s: Seq<char>)
    requires
        spec_name(t) == s,
    ensures
        forall|t2: ToolChain| spec_name(t2) == s ==> t2 == t,
{
    assert forall|t2: ToolChain| spec_name(t2) == s implies t2 == t by {
        lemma_name_injective(t, t2);
    }
}

/// The toolchains parsed out of a list of directory names, unparseable
/// names discarded, in the order given.
pub open spec fn names_to_toolchains(names: Seq<Seq<char>>) -> Seq<ToolChain>
    decreases names.len(),
{
    if names.len() == 0 {
        Seq::empty()
    } else {
        let rest = names_to_toolchains(names.drop_last());
        if exists|t: ToolChain| spec_name(t) == names.last() {
            rest.push(choose|t: ToolChain| spec_name(t) == names.last())
        } else {
            rest
        }
    }
}

/// The sequence is sorted ascending in the toolchain order.
pub open spec fn toolchains_sorted(s: Seq<ToolChain>) -> bool {
    forall|i: int, j: int| 0 <= i < j < s.len() ==> toolchain_le(s[i], s[j])
}

/// In a sorted list every member is at most the last entry; the last entry
/// is the highest-ordered installed toolchain.
pub proof fn lemma_sorted_last_is_max(s: Seq<ToolChain>, t: ToolChain)
    requires
        toolchains_sorted(s),
        s.contains(t),
    ensures
        s.len() > 0,
        toolchain_le(t, s.last()),
{
    let i = choose|i: int| 0 <= i < s.len() && s[i] == t;
    if i < s.len() - 1 {
        assert(toolchain_le(s[i], s[s.len() - 1]));
    }
}

/// Sort a list of toolchains ascending, keeping exactly the same entries.
pub fn sort_toolchains(v: &mut Vec<ToolChain>)
    ensures
        toolchains_sorted(final(v)@),
        final(v)@.to_multiset() == old(v)@.to_multiset(),
{
    broadcast use vstd::seq_lib::group_to_multiset_ensures;
    broadcast use vstd::multiset::group_multiset_axioms;

    let n = v.len();
    let mut i: usize = 1;
    while i < n
        invariant
            n == v@.len(),
            1 <= i <= n || (n == 0 && i == 1),
            v@.to_multiset() == old(v)@.to_multiset(),
            forall|a: int, b: int| 0 <= a < b < i ==> toolchain_le(v@[a], v@[b]),
        decreases n - i,
    {
        let mut j: usize = i;
        loop
            invariant
                n == v@.len(),
                1 <= i < n,
                0 <= j <= i,
                v@.to_multiset() == old(v)@.to_multiset(),
                forall|a: int, b: int|
                    0 <= a < b <= i && b != j ==> toolchain_le(v@[a], v@[b]),
            ensures
                n == v@.len(),
                0 <= j <= i,
                v@.to_multiset() == old(v)@.to_multiset(),
                forall|a: int, b: int|
                    0 <= a < b <= i && b != j ==> toolchain_le(v@[a], v@[b]),
                j == 0 || toolchain_le(v@[j - 1], v@[j as int]),
            decreases j,
        {
            if j == 0 {
                break;
            }
            let x = v[j];
            let y = v[j - 1];
            if !matches!(x.compare(&y), core::cmp::Ordering::Less) {
                proof {
                    lemma_toolchain_order_strict_total(y, x, x);
                }
                break;
            }
            let ghost before = v@;
            v.set(j, y);
            v.set(j - 1, x);
            proof {
                broadcast use vstd::seq_lib::group_to_multiset_ensures;
                broadcast use vstd::multiset::group_multiset_axioms;

                assert(v@ =~= before.update(j as int, before[j - 1]).update(
                    j - 1,
                    before[j as int],
                ));
                let s1 = before.update(j as int, before[j - 1]);
                let s2 = s1.update(j - 1, before[j as int]);
                let m0 = before.to_multiset();
                assert(before.contains(before[j as int]));
                assert(m0.count(before[j as int]) > 0);
                assert(s1.to_multiset() == m0.insert(before[j - 1]).remove(before[j as int]));
                assert(s1[j - 1] == before[j - 1]);
                assert(s2.to_multiset() == s1.to_multiset().insert(before[j as int]).remove(
                    before[j - 1],
                ));
                assert forall|e: ToolChain| s2.to_multiset().count(e) == m0.count(e) by {
                    let x = before[j as int];
                    let y = before[j - 1];
                    assert(s1.to_multiset().count(e) == m0.insert(y).remove(x).count(e));
                    assert(m0.insert(y).count(e) == m0.count(e) + (if e == y {
                        1nat
                    } else {
                        0nat
                    }));
                    assert(s1.to_multiset().insert(x).count(e) == s1.to_multiset().count(e) + (
                    if e == x {
                        1nat
                    } else {
                        0nat
                    }));
                }
                assert(v@.to_multiset() =~= before.to_multiset());
                assert forall|a: int, b: int|
                    0 <= a < b <= i && b != j - 1 implies toolchain_le(v@[a], v@[b]) by {
                    if b == j {
                        if a < j - 1 {
                            assert(toolchain_le(before[a], before[j - 1]));
                        }
                    } else {
                        if a == j - 1 {
                            assert(toolchain_le(before[j as int], before[b]));
                        } else if a == j {
                            assert(toolchain_le(before[j - 1], before[b]));
                        } else {
                            assert(toolchain_le(before[a], before[b]));
                        }
                    }
                }
            }
            j -= 1;
        }
        proof {
            assert forall|a: int, b: int| 0 <= a < b <= i implies toolchain_le(v@[a], v@[b]) by {
                if b == j {
                    let x = v@[j as int];
                    let y = v@[j - 1];
                    lemma_toolchain_order_strict_total(y, x, x);
                    assert(toolchain_le(y, x));
                    if a < j - 1 {
                        assert(toolchain_le(v@[a], y));
                        lemma_toolchain_order_strict_total(v@[a], y, x);
                    }
                }
            }
        }
        i += 1;
    }
    proof {
        if n == 0 {
        }
    }
}

/// Parse a list of directory names into the installed toolchain list:
/// unparseable names are discarded and the result is sorted ascending, so
/// its last entry is the default candidate.
pub fn toolchains_from_names(names: &Vec<String>) -> (r: Vec<ToolChain>)
    ensures
        toolchains_sorted(r@),
        r@.to_multiset() == names_to_toolchains(
            names@.map_values(|s: String| s@),
        ).to_multiset(),
{
    let ghost views = names@.map_values(|s: String| s@);
    let mut out: Vec<ToolChain> = Vec::new();
    let mut i: usize = 0;
    while i < names.len()
        invariant
            0 <= i <= names@.len(),
            views == names@.map_values(|s: String| s@),
            out@ == names_to_toolchains(views.subrange(0, i as int)),
        decreases names@.len() - i,
    {
        let ghost prefix = views.subrange(0, i as int);
        let ghost next = views.subrange(0, i + 1);
        proof {
            assert(next.drop_last() =~= prefix);
            assert(next.last() == views[i as int]);
        }
        match ToolChain::parse(names[i].as_str()) {
            Ok(t) => {
                proof {
                    assert(spec_name(t) == views[i as int]);
                    let t2 = choose|t2: ToolChain| spec_name(t2) == views[i as int];
                    lemma_name_injective(t, t2);
                }
                out.push(t);
            },
            Err(_) => {
                proof {
                    assert(!exists|t: ToolChain| spec_name(t) == views[i as int]);
                }
            },
        }
        i += 1;
    }
    proof {
        assert(views.subrange(0, views.len() as int) =~= views);
    }
    sort_toolchains(&mut out);
    out
}

/// The fixed list of tool names that a toolchain provides and that the
/// manager republishes as entry points.
pub fn tool_names() -> (r: Vec<String>)
    ensures
        r@.len() == 2,
        r@[0]@ == "veryl"@,
        r@[1]@ == "veryl-ls"@,
{
    let mut out: Vec<String> = Vec::new();
    let mut s = String::new();
    s.append("veryl");
    out.push(s);
    let mut s2 = String::new();
    s2.append("veryl-ls");
    out.push(s2);
    out
}

} // verus!
