use vstd::prelude::*;

use crate::error::Error;
use crate::num::dec_str;
use crate::num::dec_val;
use crate::num::is_canonical_dec;
use crate::num::is_digit;
use crate::num::lemma_canonical_dec_unique;
use crate::num::lemma_dec_str_canonical;
use crate::text::find_char_from;
use crate::version::lemma_version_str_facts;
use crate::version::lemma_version_str_injective;
use crate::version::spec_version_str;
use crate::version::Version;

verus! {

/// The comparison operator of a version requirement.
#[derive(Clone, Copy, Debug, PartialEq, Eq, Structural)]
pub enum ReqOp {
    /// Written without an operator; compatible-release semantics.
    Bare,
    /// `=`: equal in every stated component.
    Exact,
    /// `>`
    Greater,
    /// `>=`
    GreaterEq,
    /// `<`
    Less,
    /// `<=`
    LessEq,
    /// `~`: stated components equal, the patch at least the stated one.
    Tilde,
    /// `^`: compatible-release semantics.
    Caret,
    /// `*`: any version.
    Any,
}

/// A version-range expression: an operator over a full or partial version,
/// as a proxy pin such as `+0.16` spells it.
#[derive(Clone, Copy, Debug, PartialEq, Eq, Structural)]
pub struct VersionReq {
    pub op: ReqOp,
    pub major: u64,
    pub minor: Option<u64>,
    pub patch: Option<u64>,
}

impl VersionReq {
    /// A requirement states a patch only under a minor, and the `*` form
    /// states no components at all.
    pub open spec fn wf(self) -> bool {
        &&& self.patch is Some ==> self.minor is Some
        &&& self.op is Any ==> self.major == 0 && self.minor is None && self.patch is None
    }
}

/// Equality on the stated components.
pub open spec fn spec_matches_exact(r: VersionReq, v: Version) -> bool {
    &&& v.major == r.major
    &&& (r.minor matches Some(m) ==> v.minor == m)
    &&& (r.patch matches Some(p) ==> v.patch == p)
}

/// Strictly above the stated components.
pub open spec fn spec_matches_greater(r: VersionReq, v: Version) -> bool {
    if v.major != r.major {
        v.major > r.major
    } else {
        match r.minor {
            None => false,
            Some(m) => if v.minor != m {
                v.minor > m
            } else {
                match r.patch {
                    None => false,
                    Some(p) => v.patch > p,
                }
            },
        }
    }
}

/// Strictly below the stated components.
pub open spec fn spec_matches_less(r: VersionReq, v: Version) -> bool {
    if v.major != r.major {
        v.major < r.major
    } else {
        match r.minor {
            None => false,
            Some(m) => if v.minor != m {
                v.minor < m
            } else {
                match r.patch {
                    None => false,
                    Some(p) => v.patch < p,
                }
            },
        }
    }
}

/// Stated components equal, with the patch allowed to grow.
pub open spec fn spec_matches_tilde(r: VersionReq, v: Version) -> bool {
    &&& v.major == r.major
    &&& (r.minor matches Some(m) ==> v.minor == m)
    &&& (r.patch matches Some(p) ==> v.patch >= p)
}

/// Compatible-release semantics: no change to the leftmost non-zero
/// component, later components allowed to grow.
pub open spec fn spec_matches_caret(r: VersionReq, v: Version) -> bool {
    if v.major != r.major {
        false
    } else {
        match r.minor {
            None => true,
            Some(m) => match r.patch {
                None => if r.major > 0 {
                    v.minor >= m
                } else {
                    v.minor == m
                },
                Some(p) => if r.major > 0 {
                    if v.minor != m {
                        v.minor > m
                    } else {
                        v.patch >= p
                    }
                } else if m > 0 {
                    v.minor == m && v.patch >= p
                } else {
                    v.minor == m && v.patch == p
                },
            },
        }
    }
}

/// Whether a version satisfies a requirement.
pub open spec fn spec_req_matches(r: VersionReq, v: Version) -> bool {
    match r.op {
        ReqOp::Any => true,
        ReqOp::Exact => spec_matches_exact(r, v),
        ReqOp::Greater => spec_matches_greater(r, v),
        ReqOp::GreaterEq => spec_matches_exact(r, v) || spec_matches_greater(r, v),
        ReqOp::Less => spec_matches_less(r, v),
        ReqOp::LessEq => spec_matches_exact(r, v) || spec_matches_less(r, v),
        ReqOp::Tilde => spec_matches_tilde(r, v),
        ReqOp::Bare => spec_matches_caret(r, v),
        ReqOp::Caret => spec_matches_caret(r, v),
    }
}

impl VersionReq {
    /// Whether `v` satisfies this requirement.
    pub fn matches(&self, v: &Version) -> (r: bool)
        ensures
            r == spec_req_matches(*self, *v),
    {
        match self.op {
            ReqOp::Any => true,
            ReqOp::Exact => self.matches_exact(v),
            ReqOp::Greater => self.matches_greater(v),
            ReqOp::GreaterEq => self.matches_exact(v) || self.matches_greater(v),
            ReqOp::Less => self.matches_less(v),
            ReqOp::LessEq => self.matches_exact(v) || self.matches_less(v),
            ReqOp::Tilde => {
                let major_ok = v.major == self.major;
                let minor_ok = match self.minor {
                    Some(m) => v.minor == m,
                    None => true,
                };
                let patch_ok = match self.patch {
                    Some(p) => v.patch >= p,
                    None => true,
                };
                major_ok && minor_ok && patch_ok
            },
            ReqOp::Bare => self.matches_caret(v),
            ReqOp::Caret => self.matches_caret(v),
        }
    }

    fn matches_exact(&self, v: &Version) -> (r: bool)
        ensures
            r == spec_matches_exact(*self, *v),
    {
        let major_ok = v.major == self.major;
        let minor_ok = match self.minor {
            Some(m) => v.minor == m,
            None => true,
        };
        let patch_ok = match self.patch {
            Some(p) => v.patch == p,
            None => true,
        };
        major_ok && minor_ok && patch_ok
    }

    fn matches_greater(&self, v: &Version) -> (r: bool)
        ensures
            r == spec_matches_greater(*self, *v),
    {
        if v.major != self.major {
            return v.major > self.major;
        }
        match self.minor {
            None => false,
            Some(m) => {
                if v.minor != m {
                    return v.minor > m;
                }
                match self.patch {
                    None => false,
                    Some(p) => v.patch > p,
                }
            },
        }
    }

    fn matches_less(&self, v: &Version) -> (r: bool)
        ensures
            r == spec_matches_less(*self, *v),
    {
        if v.major != self.major {
            return v.major < self.major;
        }
        match self.minor {
            None => false,
            Some(m) => {
                if v.minor != m {
                    return v.minor < m;
                }
                match self.patch {
                    None => false,
                    Some(p) => v.patch < p,
                }
            },
        }
    }

    fn matches_caret(&self, v: &Version) -> (r: bool)
        ensures
            r == spec_matches_caret(*self, *v),
    {
        if v.major != self.major {
            return false;
        }
        let m = match self.minor {
            None => {
                return true;
            },
            Some(m) => m,
        };
        let p = match self.patch {
            None => {
                if self.major > 0 {
                    return v.minor >= m;
                } else {
                    return v.minor == m;
                }
            },
            Some(p) => p,
        };
        if self.major > 0 {
            if v.minor != m {
                v.minor > m
            } else {
                v.patch >= p
            }
        } else if m > 0 {
            v.minor == m && v.patch >= p
        } else {
            v.minor == m && v.patch == p
        }
    }
}

/// The spelling of a requirement's operator.
pub open spec fn spec_op_text(op: ReqOp) -> Seq<char> {
    match op {
        ReqOp::Bare => Seq::empty(),
        ReqOp::Exact => "="@,
        ReqOp::Greater => ">"@,
        ReqOp::GreaterEq => ">="@,
        ReqOp::Less => "<"@,
        ReqOp::LessEq => "<="@,
        ReqOp::Tilde => "~"@,
        ReqOp::Caret => "^"@,
        ReqOp::Any => Seq::empty(),
    }
}

/// The spelling of a full or partial version.
pub open spec fn spec_partial_text(major: u64, minor: Option<u64>, patch: Option<u64>) -> Seq<
    char,
> {
    match minor {
        None => dec_str(major as nat),
        Some(m) => match patch {
            None => dec_str(major as nat) + seq!['.'] + dec_str(m as nat),
            Some(p) => spec_version_str(Version { major, minor: m, patch: p }),
        },
    }
}

/// The spelling of a requirement: `*`, or the operator followed by the
/// stated components.
pub open spec fn spec_req_text(r: VersionReq) -> Seq<char> {
    if r.op is Any {
        "*"@
    } else {
        spec_op_text(r.op) + spec_partial_text(r.major, r.minor, r.patch)
    }
}

/// The first characters of a requirement's spelling identify its operator.
proof fn lemma_req_text_first(q: VersionReq)
    requires
        q.wf(),
    ensures
        ({
            let t = spec_req_text(q);
            &&& t.len() >= 1
            &&& (q.op is Any ==> t.len() == 1 && t[0] == '*')
            &&& (q.op is Bare ==> is_digit(t[0]))
            &&& (q.op is Exact ==> t.len() >= 2 && t[0] == '=' && is_digit(t[1]))
            &&& (q.op is Greater ==> t.len() >= 2 && t[0] == '>' && is_digit(t[1]))
            &&& (q.op is GreaterEq ==> t.len() >= 3 && t[0] == '>' && t[1] == '=' && is_digit(
                t[2],
            ))
            &&& (q.op is Less ==> t.len() >= 2 && t[0] == '<' && is_digit(t[1]))
            &&& (q.op is LessEq ==> t.len() >= 3 && t[0] == '<' && t[1] == '=' && is_digit(t[2]))
            &&& (q.op is Tilde ==> t.len() >= 2 && t[0] == '~' && is_digit(t[1]))
            &&& (q.op is Caret ==> t.len() >= 2 && t[0] == '^' && is_digit(t[1]))
            &&& (!(q.op is Any) ==> t.subrange(spec_op_text(q.op).len() as int, t.len() as int)
                == spec_partial_text(q.major, q.minor, q.patch))
        }),
{
    reveal_strlit("*");
    reveal_strlit("=");
    reveal_strlit(">");
    reveal_strlit(">=");
    reveal_strlit("<");
    reveal_strlit("<=");
    reveal_strlit("~");
    reveal_strlit("^");
    let t = spec_req_text(q);
    if q.op is Any {
        assert(t.len() == 1 && t[0] == '*');
    } else {
        lemma_partial_facts(q.major, q.minor, q.patch);
        let o = spec_op_text(q.op);
        let p = spec_partial_text(q.major, q.minor, q.patch);
        assert(t == o + p);
        assert(t.subrange(o.len() as int, t.len() as int) =~= p);
        assert(forall|k: int| 0 <= k < o.len() ==> t[k] == o[k]);
        assert(forall|k: int| 0 <= k < p.len() ==> t[o.len() + k] == p[k]);
    }
}

/// The spelling of a requirement determines it.
pub proof fn lemma_req_text_injective(q1: VersionReq, q2: VersionReq)
    requires
        q1.wf(),
        q2.wf(),
        spec_req_text(q1) == spec_req_text(q2),
    ensures
        q1 == q2,
{
    let t = spec_req_text(q1);
    lemma_req_text_first(q1);
    lemma_req_text_first(q2);
    assert(q1.op == q2.op) by {
        if q1.op != q2.op {
            assert(t[0] == t[0]);
            if t.len() >= 2 {
                assert(t[1] == t[1]);
            }
        }
    }
    if !(q1.op is Any) {
        let o = spec_op_text(q1.op);
        assert(t.subrange(o.len() as int, t.len() as int) == spec_partial_text(
            q1.major,
            q1.minor,
            q1.patch,
        ));
        assert(t.subrange(o.len() as int, t.len() as int) == spec_partial_text(
            q2.major,
            q2.minor,
            q2.patch,
        ));
        lemma_partial_injective(q1.major, q1.minor, q1.patch, q2.major, q2.minor, q2.patch);
    }
}

/// A partial version states a patch only under a minor.
pub open spec fn wf_partial(minor: Option<u64>, patch: Option<u64>) -> bool {
    patch is Some ==> minor is Some
}

/// Structure of a partial version's spelling: where its digits and dots
/// sit, for each of the three shapes.
proof fn lemma_partial_facts(major: u64, mi: Option<u64>, pa: Option<u64>)
    requires
        wf_partial(mi, pa),
    ensures
        ({
            let t = spec_partial_text(major, mi, pa);
            let a = dec_str(major as nat);
            let la = a.len() as int;
            &&& t.len() >= 1 && la >= 1 && t.len() >= la
            &&& is_canonical_dec(a) && dec_val(a) == major as nat
            &&& forall|k: int| 0 <= k < la ==> t[k] == a[k]
            &&& is_digit(t[0])
            &&& (mi is None ==> t == a)
            &&& (mi matches Some(m) ==> {
                let b = dec_str(m as nat);
                let lb = b.len() as int;
                &&& is_canonical_dec(b) && dec_val(b) == m as nat
                &&& t.len() >= la + 1 + lb
                &&& t[la] == '.'
                &&& forall|k: int| 0 <= k < lb ==> t[la + 1 + k] == b[k]
                &&& t.subrange(0, la) == a
                &&& t.subrange(la + 1, la + 1 + lb) == b
                &&& (pa is None ==> t.len() == la + 1 + lb && forall|k: int|
                    0 <= k < t.len() && k != la ==> is_digit(#[trigger] t[k]))
                &&& (pa matches Some(p) ==> {
                    let c = dec_str(p as nat);
                    let lc = c.len() as int;
                    &&& is_canonical_dec(c) && dec_val(c) == p as nat
                    &&& t.len() == la + 1 + lb + 1 + lc
                    &&& t[la + 1 + lb] == '.'
                    &&& t.subrange(la + lb + 2, t.len() as int) == c
                    &&& forall|k: int|
                        0 <= k < t.len() && k != la && k != la + 1 + lb ==> is_digit(
                            #[trigger] t[k],
                        )
                })
            })
        }),
{
    let t = spec_partial_text(major, mi, pa);
    let a = dec_str(major as nat);
    let la = a.len() as int;
    lemma_dec_str_canonical(major as nat);
    match mi {
        None => {
            assert(t == a);
        },
        Some(m) => {
            let b = dec_str(m as nat);
            let lb = b.len() as int;
            lemma_dec_str_canonical(m as nat);
            match pa {
                None => {
                    assert(t == a + seq!['.'] + b);
                    assert(forall|k: int| 0 <= k < la ==> t[k] == a[k]) by {
                        assert(forall|k: int|
                            0 <= k < la ==> #[trigger] t[k] == (a + seq!['.'])[k]);
                    }
                    assert(t[la] == '.');
                    assert(forall|k: int| 0 <= k < lb ==> t[la + 1 + k] == b[k]);
                    assert(t.subrange(0, la) =~= a);
                    assert(t.subrange(la + 1, la + 1 + lb) =~= b);
                    assert forall|k: int|
                        0 <= k < t.len() && k != la implies is_digit(#[trigger] t[k]) by {
                        if k < la {
                            assert(t[k] == a[k]);
                        } else {
                            assert(t[k] == b[k - la - 1]);
                        }
                    }
                },
                Some(p) => {
                    let v = Version { major, minor: m, patch: p };
                    let c = dec_str(p as nat);
                    let lc = c.len() as int;
                    lemma_dec_str_canonical(p as nat);
                    lemma_version_str_facts(v);
                    assert(t == spec_version_str(v));
                    assert forall|k: int|
                        0 <= k < t.len() && k != la && k != la + 1 + lb implies is_digit(
                        #[trigger] t[k],
                    ) by {
                        if k < la {
                            assert(t[k] == a[k]);
                        } else if k < la + 1 + lb {
                            assert(t[la + 1 + (k - la - 1)] == b[k - la - 1]);
                        } else {
                            assert(t[la + lb + 2 + (k - la - lb - 2)] == c[k - la - lb - 2]);
                        }
                    }
                },
            }
        },
    }
}

/// In a text that starts with digits up to a dot, the first dot is that
/// one.
proof fn lemma_first_sep(t: Seq<char>, la: int, d: int)
    requires
        0 <= la < t.len(),
        forall|k: int| 0 <= k < la ==> is_digit(#[trigger] t[k]),
        t[la] == '.',
        0 <= d < t.len(),
        t[d] == '.',
        forall|k: int| 0 <= k < d ==> t[k] != '.',
    ensures
        d == la,
{
    if d < la {
        assert(is_digit(t[d]));
    }
}

/// The spelling of a partial version determines it.
proof fn lemma_partial_injective(
    m1: u64,
    mi1: Option<u64>,
    pa1: Option<u64>,
    m2: u64,
    mi2: Option<u64>,
    pa2: Option<u64>,
)
    requires
        wf_partial(mi1, pa1),
        wf_partial(mi2, pa2),
        spec_partial_text(m1, mi1, pa1) == spec_partial_text(m2, mi2, pa2),
    ensures
        m1 == m2 && mi1 == mi2 && pa1 == pa2,
{
    let t = spec_partial_text(m1, mi1, pa1);
    let a1 = dec_str(m1 as nat);
    let a2 = dec_str(m2 as nat);
    let la1 = a1.len() as int;
    let la2 = a2.len() as int;
    lemma_partial_facts(m1, mi1, pa1);
    lemma_partial_facts(m2, mi2, pa2);
    match (mi1, mi2) {
        (None, None) => {
            assert(dec_val(a1) == dec_val(a2));
        },
        (None, Some(x2)) => {
            assert(is_digit(t[la2]) && t[la2] == '.') by {
                assert(t == a1);
            }
        },
        (Some(x1), None) => {
            assert(is_digit(t[la1]) && t[la1] == '.') by {
                assert(t == a2);
            }
        },
        (Some(x1), Some(x2)) => {
            let b1 = dec_str(x1 as nat);
            let b2 = dec_str(x2 as nat);
            let lb1 = b1.len() as int;
            let lb2 = b2.len() as int;
            assert(la1 == la2) by {
                if la1 < la2 {
                    assert(is_digit(a2[la1]) && t[la1] == a2[la1] && t[la1] == '.');
                }
                if la2 < la1 {
                    assert(is_digit(a1[la2]) && t[la2] == a1[la2] && t[la2] == '.');
                }
            }
            assert(a1 =~= a2) by {
                assert(forall|k: int| 0 <= k < la1 ==> a1[k] == t[k]);
                assert(forall|k: int| 0 <= k < la2 ==> a2[k] == t[k]);
            }
            assert(m1 == m2) by {
                assert(dec_val(a1) == dec_val(a2));
            }
            match (pa1, pa2) {
                (None, None) => {
                    assert(lb1 == lb2);
                    assert(b1 =~= b2) by {
                        assert(forall|k: int| 0 <= k < lb1 ==> b1[k] == t[la1 + 1 + k]);
                        assert(forall|k: int| 0 <= k < lb2 ==> b2[k] == t[la2 + 1 + k]);
                    }
                    assert(dec_val(b1) == dec_val(b2));
                },
                (None, Some(y2)) => {
                    assert(t[la2 + 1 + lb2] == '.');
                    assert(is_digit(t[la2 + 1 + lb2]));
                },
                (Some(y1), None) => {
                    assert(t[la1 + 1 + lb1] == '.');
                    assert(is_digit(t[la1 + 1 + lb1]));
                },
                (Some(y1), Some(y2)) => {
                    lemma_version_str_injective(
                        Version { major: m1, minor: x1, patch: y1 },
                        Version { major: m2, minor: x2, patch: y2 },
                    );
                },
            }
        },
    }
}

/// Parse a full or partial version out of the characters from `from` on.
#[verifier::rlimit(50)]
fn parse_partial(s: &str, from: usize) -> (r: Result<(u64, Option<u64>, Option<u64>), Error>)
    requires
        from <= s@.len(),
    ensures
        ({
            let sub = s@.subrange(from as int, s@.len() as int);
            &&& r matches Ok(t) ==> wf_partial(t.1, t.2) && spec_partial_text(t.0, t.1, t.2)
                == sub
            &&& forall|m: u64, mi: Option<u64>, pa: Option<u64>|
                wf_partial(mi, pa) && spec_partial_text(m, mi, pa) == sub ==> r == Ok::<
                    (u64, Option<u64>, Option<u64>),
                    Error,
                >((m, mi, pa))
            &&& r is Err ==> r == Err::<(u64, Option<u64>, Option<u64>), Error>(Error::ParseError)
        }),
{
    let ghost sub = s@.subrange(from as int, s@.len() as int);
    let len = s.unicode_len();
    match find_char_from(s, '.', from) {
        None => {
            match Version::parse_component(s, from, len) {
                Some(m) => {
                    proof {
                        assert(sub == s@.subrange(from as int, len as int));
                        assert(spec_partial_text(m, None, None) == sub) by {
                            lemma_canonical_dec_unique(sub);
                        }
                        assert forall|m2: u64, mi2: Option<u64>, pa2: Option<u64>|
                            wf_partial(mi2, pa2) && spec_partial_text(m2, mi2, pa2)
                                == sub implies (m2, mi2, pa2) == (m, None::<u64>, None::<
                            u64,
                        >) by {
                            lemma_partial_injective(m, None, None, m2, mi2, pa2);
                        }
                    }
                    Ok((m, None, None))
                },
                None => {
                    proof {
                        assert forall|m2: u64, mi2: Option<u64>, pa2: Option<u64>|
                            !(wf_partial(mi2, pa2) && spec_partial_text(m2, mi2, pa2)
                                == sub) by {
                            if wf_partial(mi2, pa2) && spec_partial_text(m2, mi2, pa2) == sub {
                                lemma_partial_facts(m2, mi2, pa2);
                                match mi2 {
                                    None => {
                                        assert(sub == dec_str(m2 as nat));
                                    },
                                    Some(x) => {
                                        let la = dec_str(m2 as nat).len() as int;
                                        assert(sub[la] == '.');
                                        assert(s@[from + la] == '.');
                                    },
                                }
                            }
                        }
                    }
                    Err(Error::ParseError)
                },
            }
        },
        Some(i) => {
            proof {
                assert(sub[i - from] == '.');
                assert(forall|k: int| 0 <= k < i - from ==> sub[k] != '.') by {
                    assert(forall|k: int| 0 <= k < i - from ==> sub[k] == #[trigger] s@[
                    from + k]);
                }
            }
            match find_char_from(s, '.', i + 1) {
                None => {
                    let c1 = Version::parse_component(s, from, i);
                    let c2 = Version::parse_component(s, i + 1, len);
                    match (c1, c2) {
                        (Some(m), Some(x)) => {
                            proof {
                                let a = s@.subrange(from as int, i as int);
                                let b = s@.subrange(i + 1, len as int);
                                lemma_canonical_dec_unique(a);
                                lemma_canonical_dec_unique(b);
                                assert(spec_partial_text(m, Some(x), None) == sub) by {
                                    assert(sub =~= a + seq!['.'] + b);
                                }
                                assert forall|m2: u64, mi2: Option<u64>, pa2: Option<u64>|
                                    wf_partial(mi2, pa2) && spec_partial_text(m2, mi2, pa2)
                                        == sub implies (m2, mi2, pa2) == (m, Some(x), None::<
                                    u64,
                                >) by {
                                    lemma_partial_injective(m, Some(x), None, m2, mi2, pa2);
                                }
                            }
                            Ok((m, Some(x), None))
                        },
                        _ => {
                            proof {
                                lemma_two_seg_reject(s@, from as int, i as int);
                            }
                            Err(Error::ParseError)
                        },
                    }
                },
                Some(j) => {
                    if let Some(_) = find_char_from(s, '.', j + 1) {
                        proof {
                            let k = choose|k: int|
                                j < k < s@.len() && s@[k] == '.' && forall|x: int|
                                    j < x < k ==> s@[x] != '.';
                            lemma_three_dot_reject(s@, from as int, i as int, j as int, k);
                        }
                        return Err(Error::ParseError);
                    }
                    let c1 = Version::parse_component(s, from, i);
                    let c2 = Version::parse_component(s, i + 1, j);
                    let c3 = Version::parse_component(s, j + 1, len);
                    match (c1, c2, c3) {
                        (Some(m), Some(x), Some(y)) => {
                            proof {
                                let a = s@.subrange(from as int, i as int);
                                let b = s@.subrange(i + 1, j as int);
                                let c = s@.subrange(j + 1, len as int);
                                lemma_canonical_dec_unique(a);
                                lemma_canonical_dec_unique(b);
                                lemma_canonical_dec_unique(c);
                                assert(spec_partial_text(m, Some(x), Some(y)) == sub) by {
                                    assert(sub =~= a + seq!['.'] + b + seq!['.'] + c);
                                }
                                assert forall|m2: u64, mi2: Option<u64>, pa2: Option<u64>|
                                    wf_partial(mi2, pa2) && spec_partial_text(m2, mi2, pa2)
                                        == sub implies (m2, mi2, pa2) == (m, Some(x), Some(
                                    y,
                                )) by {
                                    lemma_partial_injective(m, Some(x), Some(y), m2, mi2, pa2);
                                }
                            }
                            Ok((m, Some(x), Some(y)))
                        },
                        _ => {
                            proof {
                                lemma_three_seg_reject(s@, from as int, i as int, j as int);
                            }
                            Err(Error::ParseError)
                        },
                    }
                },
            }
        },
    }
}

impl VersionReq {
    /// Parse a version-range expression: `*`, or an optional operator
    /// (`=`, `>`, `>=`, `<`, `<=`, `~`, `^`; none means compatible-release)
    /// followed by a full or partial version.
    pub fn parse(s: &str) -> (r: Result<VersionReq, Error>)
        ensures
            r matches Ok(q) ==> q.wf() && spec_req_text(q) == s@,
            forall|q: VersionReq| q.wf() && spec_req_text(q) == s@ ==> r == Ok::<
                VersionReq,
                Error,
            >(q),
            r is Err ==> r == Err::<VersionReq, Error>(Error::ParseError),
    {
        proof {
            reveal_strlit("*");
            reveal_strlit("=");
            reveal_strlit(">");
            reveal_strlit(">=");
            reveal_strlit("<");
            reveal_strlit("<=");
            reveal_strlit("~");
            reveal_strlit("^");
        }
        let len = s.unicode_len();
        if len == 0 {
            proof {
                assert forall|q: VersionReq| !(q.wf() && spec_req_text(q) == s@) by {
                    if q.wf() && spec_req_text(q) == s@ {
                        lemma_req_text_first(q);
                    }
                }
            }
            return Err(Error::ParseError);
        }
        let c0 = s.get_char(0);
        if c0 == '*' {
            if len == 1 {
                let q = VersionReq { op: ReqOp::Any, major: 0, minor: None, patch: None };
                proof {
                    assert(spec_req_text(q) =~= s@);
                    assert forall|q2: VersionReq|
                        q2.wf() && spec_req_text(q2) == s@ implies Ok::<VersionReq, Error>(q)
                        == Ok::<VersionReq, Error>(q2) by {
                        lemma_req_text_injective(q, q2);
                    }
                }
                return Ok(q);
            } else {
                proof {
                    assert forall|q: VersionReq| !(q.wf() && spec_req_text(q) == s@) by {
                        if q.wf() && spec_req_text(q) == s@ {
                            lemma_req_text_first(q);
                        }
                    }
                }
                return Err(Error::ParseError);
            }
        }
        let second_eq = if len >= 2 {
            s.get_char(1) == '='
        } else {
            false
        };
        let (op, start): (ReqOp, usize) = if c0 == '=' {
            (ReqOp::Exact, 1)
        } else if c0 == '>' && second_eq {
            (ReqOp::GreaterEq, 2)
        } else if c0 == '>' {
            (ReqOp::Greater, 1)
        } else if c0 == '<' && second_eq {
            (ReqOp::LessEq, 2)
        } else if c0 == '<' {
            (ReqOp::Less, 1)
        } else if c0 == '~' {
            (ReqOp::Tilde, 1)
        } else if c0 == '^' {
            (ReqOp::Caret, 1)
        } else {
            (ReqOp::Bare, 0)
        };
        proof {
            assert(!(op is Any));
            assert(start == spec_op_text(op).len() && s@.subrange(0, start as int)
                =~= spec_op_text(op));
            assert forall|q: VersionReq| q.wf() && spec_req_text(q) == s@ implies q.op == op by {
                lemma_req_text_first(q);
            }
        }
        if start >= len {
            proof {
                assert forall|q: VersionReq| !(q.wf() && spec_req_text(q) == s@) by {
                    if q.wf() && spec_req_text(q) == s@ {
                        lemma_req_text_first(q);
                    }
                }
            }
            return Err(Error::ParseError);
        }
        match parse_partial(s, start) {
            Ok((major, minor, patch)) => {
                let q = VersionReq { op, major, minor, patch };
                proof {
                    assert(spec_req_text(q) =~= s@) by {
                        assert(s@ =~= s@.subrange(0, start as int) + s@.subrange(
                            start as int,
                            s@.len() as int,
                        ));
                    }
                    assert forall|q2: VersionReq|
                        q2.wf() && spec_req_text(q2) == s@ implies Ok::<VersionReq, Error>(q)
                        == Ok::<VersionReq, Error>(q2) by {
                        lemma_req_text_injective(q, q2);
                    }
                }
                Ok(q)
            },
            Err(_) => {
                proof {
                    assert forall|q: VersionReq| !(q.wf() && spec_req_text(q) == s@) by {
                        if q.wf() && spec_req_text(q) == s@ {
                            lemma_req_text_first(q);
                            assert(spec_partial_text(q.major, q.minor, q.patch) == s@.subrange(
                                start as int,
                                s@.len() as int,
                            ));
                        }
                    }
                }
                Err(Error::ParseError)
            },
        }
    }
}

/// With a lone dot at `i` and an unusable segment, no partial version
/// spells the suffix.
proof fn lemma_two_seg_reject(s: Seq<char>, from: int, i: int)
    requires
        0 <= from <= i < s.len(),
        s[i] == '.',
        forall|k: int| from <= k < i ==> s[k] != '.',
        forall|k: int| i < k < s.len() ==> s[k] != '.',
        !(is_canonical_dec(s.subrange(from, i)) && dec_val(s.subrange(from, i)) <= u64::MAX
            && is_canonical_dec(s.subrange(i + 1, s.len() as int)) && dec_val(
            s.subrange(i + 1, s.len() as int),
        ) <= u64::MAX),
    ensures
        forall|m: u64, mi: Option<u64>, pa: Option<u64>|
            !(wf_partial(mi, pa) && spec_partial_text(m, mi, pa) == s.subrange(
                from,
                s.len() as int,
            )),
{
    let sub = s.subrange(from, s.len() as int);
    assert forall|m: u64, mi: Option<u64>, pa: Option<u64>|
        !(wf_partial(mi, pa) && spec_partial_text(m, mi, pa) == sub) by {
        if wf_partial(mi, pa) && spec_partial_text(m, mi, pa) == sub {
            lemma_partial_facts(m, mi, pa);
            assert(forall|k: int| 0 <= k < i - from ==> sub[k] == #[trigger] s[from + k]);
            assert(forall|k: int| 0 <= k < sub.len() ==> sub[k] == #[trigger] s[from + k]);
            match mi {
                None => {
                    assert(is_digit(sub[i - from]));
                },
                Some(x) => {
                    let a = dec_str(m as nat);
                    let la = a.len() as int;
                    lemma_first_sep(sub, la, i - from);
                    match pa {
                        None => {
                            let b = dec_str(x as nat);
                            assert(sub.subrange(0, la) =~= s.subrange(from, i));
                            assert(sub.subrange(la + 1, la + 1 + b.len() as int) =~= s.subrange(
                                i + 1,
                                s.len() as int,
                            ));
                        },
                        Some(y) => {
                            let b = dec_str(x as nat);
                            let lb = b.len() as int;
                            assert(sub[la + 1 + lb] == '.');
                            assert(s[from + la + 1 + lb] == '.');
                        },
                    }
                },
            }
        }
    }
}

/// With dots at `i` and `j` and an unusable segment, no partial version
/// spells the suffix.
proof fn lemma_three_seg_reject(s: Seq<char>, from: int, i: int, j: int)
    requires
        0 <= from <= i < j < s.len(),
        s[i] == '.',
        s[j] == '.',
        forall|k: int| from <= k < i ==> s[k] != '.',
        forall|k: int| i < k < j ==> s[k] != '.',
        forall|k: int| j < k < s.len() ==> s[k] != '.',
        !(is_canonical_dec(s.subrange(from, i)) && dec_val(s.subrange(from, i)) <= u64::MAX
            && is_canonical_dec(s.subrange(i + 1, j)) && dec_val(s.subrange(i + 1, j))
            <= u64::MAX && is_canonical_dec(s.subrange(j + 1, s.len() as int)) && dec_val(
            s.subrange(j + 1, s.len() as int),
        ) <= u64::MAX),
    ensures
        forall|m: u64, mi: Option<u64>, pa: Option<u64>|
            !(wf_partial(mi, pa) && spec_partial_text(m, mi, pa) == s.subrange(
                from,
                s.len() as int,
            )),
{
    let sub = s.subrange(from, s.len() as int);
    assert forall|m: u64, mi: Option<u64>, pa: Option<u64>|
        !(wf_partial(mi, pa) && spec_partial_text(m, mi, pa) == sub) by {
        if wf_partial(mi, pa) && spec_partial_text(m, mi, pa) == sub {
            lemma_partial_facts(m, mi, pa);
            assert(forall|k: int| 0 <= k < sub.len() ==> sub[k] == #[trigger] s[from + k]);
            match mi {
                None => {
                    assert(is_digit(sub[i - from]));
                },
                Some(x) => {
                    let a = dec_str(m as nat);
                    let la = a.len() as int;
                    let b = dec_str(x as nat);
                    let lb = b.len() as int;
                    lemma_first_sep(sub, la, i - from);
                    match pa {
                        None => {
                            assert(is_digit(sub[j - from]));
                        },
                        Some(y) => {
                            assert(sub[la + 1 + lb] == '.');
                            assert(j - from == la + 1 + lb) by {
                                if j - from < la + 1 + lb {
                                    assert(is_digit(sub[j - from]));
                                }
                                if la + 1 + lb < j - from {
                                    assert(s[from + la + 1 + lb] == '.');
                                }
                            }
                            assert(sub.subrange(0, la) =~= s.subrange(from, i));
                            assert(sub.subrange(la + 1, la + 1 + lb) =~= s.subrange(i + 1, j));
                            assert(sub.subrange(la + 1 + lb + 1, sub.len() as int) =~= s.subrange(
                                j + 1,
                                s.len() as int,
                            ));
                        },
                    }
                },
            }
        }
    }
}

/// With a third dot at `k`, no partial version spells the suffix.
proof fn lemma_three_dot_reject(s: Seq<char>, from: int, i: int, j: int, k: int)
    requires
        0 <= from <= i < j < k < s.len(),
        s[i] == '.',
        s[j] == '.',
        s[k] == '.',
        forall|x: int| from <= x < i ==> s[x] != '.',
        forall|x: int| i < x < j ==> s[x] != '.',
    ensures
        forall|m: u64, mi: Option<u64>, pa: Option<u64>|
            !(wf_partial(mi, pa) && spec_partial_text(m, mi, pa) == s.subrange(
                from,
                s.len() as int,
            )),
{
    let sub = s.subrange(from, s.len() as int);
    assert forall|m: u64, mi: Option<u64>, pa: Option<u64>|
        !(wf_partial(mi, pa) && spec_partial_text(m, mi, pa) == sub) by {
        if wf_partial(mi, pa) && spec_partial_text(m, mi, pa) == sub {
            lemma_partial_facts(m, mi, pa);
            assert(forall|x: int| 0 <= x < sub.len() ==> sub[x] == #[trigger] s[from + x]);
            match mi {
                None => {
                    assert(is_digit(sub[i - from]));
                },
                Some(x) => {
                    let a = dec_str(m as nat);
                    let la = a.len() as int;
                    let b = dec_str(x as nat);
                    let lb = b.len() as int;
                    lemma_first_sep(sub, la, i - from);
                    match pa {
                        None => {
                            assert(is_digit(sub[j - from]));
                        },
                        Some(y) => {
                            assert(sub[la + 1 + lb] == '.');
                            assert(j - from == la + 1 + lb) by {
                                if j - from < la + 1 + lb {
                                    assert(is_digit(sub[j - from]));
                                }
                                if la + 1 + lb < j - from {
                                    assert(s[from + la + 1 + lb] == '.');
                                }
                            }
                            assert(is_digit(sub[k - from]));
                        },
                    }
                },
            }
        }
    }
}

} // verus!

