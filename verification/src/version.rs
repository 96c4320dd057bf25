use vstd::prelude::*;

use crate::error::Error;
use crate::num::all_digits;
use crate::num::dec_str;
use crate::num::dec_val;
use crate::num::is_canonical_dec;
use crate::num::is_digit;
use crate::num::lemma_canonical_dec_unique;
use crate::num::lemma_dec_str_canonical;
use crate::num::parse_dec_range;
use crate::num::push_dec;
use crate::text::find_char;
use crate::text::find_char_from;
use crate::text::is_prefix;
use crate::text::is_ws;
use crate::text::lemma_trim_end;
use crate::text::str_starts_with;
use crate::text::trim_end_ws;

verus! {

/// A release version: three numeric components compared lexicographically.
///
/// This is the version grammar of the toolchain's release names:
/// `major.minor.patch`, each component a decimal number without a leading
/// zero.  Pre-release and build suffixes are not part of the release naming
/// scheme and are rejected.
#[derive(Clone, Copy, Debug, PartialEq, Eq, Structural)]
pub struct Version {
    pub major: u64,
    pub minor: u64,
    pub patch: u64,
}

/// Strict precedence order on versions.
pub open spec fn version_lt(a: Version, b: Version) -> bool {
    ||| a.major < b.major
    ||| (a.major == b.major && a.minor < b.minor)
    ||| (a.major == b.major && a.minor == b.minor && a.patch < b.patch)
}

/// Non-strict precedence order on versions.
pub open spec fn version_le(a: Version, b: Version) -> bool {
    version_lt(a, b) || a == b
}

/// The canonical text of a version: the three components in decimal,
/// separated by dots.
pub open spec fn spec_version_str(v: Version) -> Seq<char> {
    dec_str(v.major as nat) + seq!['.'] + dec_str(v.minor as nat) + seq!['.'] + dec_str(
        v.patch as nat,
    )
}

/// Structure of the canonical text: where the digits and the dots sit.
pub proof fn lemma_version_str_facts(v: Version)
    ensures
        ({
            let a = dec_str(v.major as nat);
            let b = dec_str(v.minor as nat);
            let c = dec_str(v.patch as nat);
            let la = a.len() as int;
            let lb = b.len() as int;
            let lc = c.len() as int;
            let s = spec_version_str(v);
            &&& s.len() == la + lb + lc + 2
            &&& is_canonical_dec(a) && dec_val(a) == v.major as nat
            &&& is_canonical_dec(b) && dec_val(b) == v.minor as nat
            &&& is_canonical_dec(c) && dec_val(c) == v.patch as nat
            &&& forall|k: int| 0 <= k < la ==> s[k] == a[k]
            &&& s[la] == '.'
            &&& forall|k: int| 0 <= k < lb ==> s[la + 1 + k] == b[k]
            &&& s[la + lb + 1] == '.'
            &&& forall|k: int| 0 <= k < lc ==> s[la + lb + 2 + k] == c[k]
            &&& s.subrange(0, la) == a
            &&& s.subrange(la + 1, la + 1 + lb) == b
            &&& s.subrange(la + lb + 2, s.len() as int) == c
        }),
{
    let a = dec_str(v.major as nat);
    let b = dec_str(v.minor as nat);
    let c = dec_str(v.patch as nat);
    let la = a.len() as int;
    let lb = b.len() as int;
    let lc = c.len() as int;
    let s = spec_version_str(v);
    lemma_dec_str_canonical(v.major as nat);
    lemma_dec_str_canonical(v.minor as nat);
    lemma_dec_str_canonical(v.patch as nat);
    assert(s == a + seq!['.'] + b + seq!['.'] + c);
    assert(s.len() == la + lb + lc + 2);
    assert forall|k: int| 0 <= k < la implies s[k] == a[k] by {
        assert(s[k] == (a + seq!['.'] + b + seq!['.'])[k]);
    }
    assert(s[la] == '.');
    assert forall|k: int| 0 <= k < lb implies s[la + 1 + k] == b[k] by {
        assert(s[la + 1 + k] == (a + seq!['.'] + b + seq!['.'])[la + 1 + k]);
        assert((a + seq!['.'] + b + seq!['.'])[la + 1 + k] == (a + seq!['.'] + b)[la + 1 + k]);
    }
    assert(s[la + lb + 1] == '.') by {
        assert(s[la + lb + 1] == (a + seq!['.'] + b + seq!['.'])[la + lb + 1]);
    }
    assert forall|k: int| 0 <= k < lc implies s[la + lb + 2 + k] == c[k] by {
        assert(s[la + lb + 2 + k] == c[k]);
    }
    assert(s.subrange(0, la) =~= a);
    assert(s.subrange(la + 1, la + 1 + lb) =~= b);
    assert(s.subrange(la + lb + 2, s.len() as int) =~= c);
}

/// The canonical text determines the version: no two versions share it.
pub proof fn lemma_version_str_injective(x: Version, y: Version)
    requires
        spec_version_str(x) == spec_version_str(y),
    ensures
        x == y,
{
    let ax = dec_str(x.major as nat);
    let bx = dec_str(x.minor as nat);
    let cx = dec_str(x.patch as nat);
    let ay = dec_str(y.major as nat);
    let by = dec_str(y.minor as nat);
    let cy = dec_str(y.patch as nat);
    let s = spec_version_str(x);
    let lax = ax.len() as int;
    let lay = ay.len() as int;
    let lbx = bx.len() as int;
    let lby = by.len() as int;
    lemma_version_str_facts(x);
    lemma_version_str_facts(y);
    assert(lax == lay) by {
        if lax < lay {
            assert(s[lax] == '.');
            assert(is_digit(ay[lax]));
            assert(s[lax] == ay[lax]);
        }
        if lay < lax {
            assert(s[lay] == '.');
            assert(is_digit(ax[lay]));
            assert(s[lay] == ax[lay]);
        }
    }
    assert(ax =~= ay) by {
        assert(forall|k: int| 0 <= k < lax ==> ax[k] == s[k]);
        assert(forall|k: int| 0 <= k < lay ==> ay[k] == s[k]);
    }
    assert(x.major == y.major) by {
        assert(dec_val(ax) == dec_val(ay));
    }
    assert(lbx == lby) by {
        if lbx < lby {
            assert(s[lax + 1 + lbx] == '.');
            assert(is_digit(by[lbx]));
            assert(s[lay + 1 + lbx] == by[lbx]);
        }
        if lby < lbx {
            assert(s[lay + 1 + lby] == '.');
            assert(is_digit(bx[lby]));
            assert(s[lax + 1 + lby] == bx[lby]);
        }
    }
    assert(bx =~= by) by {
        assert(forall|k: int| 0 <= k < lbx ==> bx[k] == s[lax + 1 + k]);
        assert(forall|k: int| 0 <= k < lby ==> by[k] == s[lay + 1 + k]);
    }
    assert(x.minor == y.minor) by {
        assert(dec_val(bx) == dec_val(by));
    }
    assert(cx.len() == cy.len());
    assert(cx =~= cy) by {
        assert(forall|k: int| 0 <= k < cx.len() ==> cx[k] == s[lax + lbx + 2 + k]);
        assert(forall|k: int| 0 <= k < cy.len() ==> cy[k] == s[lay + lby + 2 + k]);
    }
    assert(x.patch == y.patch) by {
        assert(dec_val(cx) == dec_val(cy));
    }
}

impl Version {
    /// The canonical text of this version.
    pub fn to_text(&self) -> (r: String)
        ensures
            r@ == spec_version_str(*self),
    {
        let mut out = String::new();
        push_dec(&mut out, self.major);
        out.append(".");
        push_dec(&mut out, self.minor);
        out.append(".");
        push_dec(&mut out, self.patch);
        proof {
            reveal_strlit(".");
            assert("."@ =~= seq!['.']);
            assert(out@ =~= spec_version_str(*self));
        }
        out
    }

    /// Parse the canonical text of a version.
    ///
    /// Succeeds exactly on strings of the form `major.minor.patch` with
    /// canonical decimal components that fit in 64 bits, and returns the one
    /// version whose canonical text is the input.
    pub fn parse(s: &str) -> (r: Result<Version, Error>)
        ensures
            r matches Ok(v) ==> spec_version_str(v) == s@,
            forall|v: Version| spec_version_str(v) == s@ ==> r == Ok::<Version, Error>(v),
            r is Err ==> r == Err::<Version, Error>(Error::ParseError),
    {
        let len = s.unicode_len();
        let i = match find_char(s, '.') {
            Some(i) => i,
            None => {
                proof {
                    assert forall|v: Version| spec_version_str(v) != s@ by {
                        if spec_version_str(v) == s@ {
                            lemma_version_str_facts(v);
                            let la = dec_str(v.major as nat).len() as int;
                            assert(s@[la] == '.');
                        }
                    }
                }
                return Err(Error::ParseError);
            },
        };
        let j = match find_char_from(s, '.', i + 1) {
            Some(j) => j,
            None => {
                proof {
                    assert forall|v: Version| spec_version_str(v) != s@ by {
                        if spec_version_str(v) == s@ {
                            lemma_version_str_facts(v);
                            lemma_first_dot(v, s@, i as int);
                            let la = dec_str(v.major as nat).len() as int;
                            let lb = dec_str(v.minor as nat).len() as int;
                            assert(s@[la + 1 + lb] == '.');
                        }
                    }
                }
                return Err(Error::ParseError);
            },
        };
        if let Some(_) = find_char_from(s, '.', j + 1) {
            proof {
                assert forall|v: Version| spec_version_str(v) != s@ by {
                    if spec_version_str(v) == s@ {
                        lemma_version_str_facts(v);
                        lemma_first_dot(v, s@, i as int);
                        lemma_second_dot(v, s@, i as int, j as int);
                        let k = choose|k: int|
                            j < k < s@.len() && s@[k] == '.' && forall|m: int|
                                j < m < k ==> s@[m] != '.';
                        let la = dec_str(v.major as nat).len() as int;
                        let lb = dec_str(v.minor as nat).len() as int;
                        let lc = dec_str(v.patch as nat).len() as int;
                        assert(is_digit(s@[k]));
                    }
                }
            }
            return Err(Error::ParseError);
        }
        let ma = Self::parse_component(s, 0, i);
        let mi = Self::parse_component(s, i + 1, j);
        let pa = Self::parse_component(s, j + 1, len);
        let (ma, mi, pa) = match (ma, mi, pa) {
            (Some(ma), Some(mi), Some(pa)) => (ma, mi, pa),
            _ => {
                proof {
                    assert forall|v: Version| spec_version_str(v) != s@ by {
                        if spec_version_str(v) == s@ {
                            lemma_version_str_facts(v);
                            lemma_first_dot(v, s@, i as int);
                            lemma_second_dot(v, s@, i as int, j as int);
                            let a = dec_str(v.major as nat);
                            let b = dec_str(v.minor as nat);
                            let c = dec_str(v.patch as nat);
                            assert(s@.subrange(0, i as int) == a);
                            assert(s@.subrange(i + 1, j as int) == b);
                            assert(s@.subrange(j + 1, s@.len() as int) == c);
                            lemma_canonical_component(a, v.major);
                            lemma_canonical_component(b, v.minor);
                            lemma_canonical_component(c, v.patch);
                        }
                    }
                }
                return Err(Error::ParseError);
            },
        };
        let v = Version { major: ma, minor: mi, patch: pa };
        proof {
            let a = s@.subrange(0, i as int);
            let b = s@.subrange(i + 1, j as int);
            let c = s@.subrange(j + 1, s@.len() as int);
            lemma_canonical_dec_unique(a);
            lemma_canonical_dec_unique(b);
            lemma_canonical_dec_unique(c);
            assert(a == dec_str(ma as nat) && b == dec_str(mi as nat) && c == dec_str(pa as nat));
            assert(s@ =~= a + seq!['.'] + b + seq!['.'] + c);
            assert(spec_version_str(v) == s@);
            assert forall|v2: Version| spec_version_str(v2) == s@ implies Ok::<Version, Error>(v)
                == Ok::<Version, Error>(v2) by {
                lemma_version_str_injective(v, v2);
            }
        }
        Ok(v)
    }

    /// Parse one version component: a canonical decimal number.
    pub(crate) fn parse_component(s: &str, from: usize, to: usize) -> (r: Option<u64>)
        requires
            from <= to <= s@.len(),
        ensures
            ({
                let part = s@.subrange(from as int, to as int);
                match r {
                    Some(n) => is_canonical_dec(part) && dec_val(part) == n as nat,
                    None => !(is_canonical_dec(part) && dec_val(part) <= u64::MAX),
                }
            }),
    {
        let ghost part = s@.subrange(from as int, to as int);
        if to - from > 1 && s.get_char(from) == '0' {
            proof {
                assert(part[0] == '0');
            }
            return None;
        }
        let r = parse_dec_range(s, from, to);
        proof {
            if r is Some {
                assert(part.len() > 0 && all_digits(part));
                assert(part.len() > 1 ==> part[0] != '0');
            }
        }
        r
    }

    /// Compare two versions by precedence.
    pub fn compare(&self, other: &Version) -> (r: core::cmp::Ordering)
        ensures
            r is Less <==> version_lt(*self, *other),
            r is Equal <==> *self == *other,
            r is Greater <==> version_lt(*other, *self),
    {
        if self.major < other.major {
            core::cmp::Ordering::Less
        } else if self.major > other.major {
            core::cmp::Ordering::Greater
        } else if self.minor < other.minor {
            core::cmp::Ordering::Less
        } else if self.minor > other.minor {
            core::cmp::Ordering::Greater
        } else if self.patch < other.patch {
            core::cmp::Ordering::Less
        } else if self.patch > other.patch {
            core::cmp::Ordering::Greater
        } else {
            core::cmp::Ordering::Equal
        }
    }

    /// Non-strict precedence comparison.
    pub fn le(&self, other: &Version) -> (r: bool)
        ensures
            r == version_le(*self, *other),
    {
        !matches!(other.compare(self), core::cmp::Ordering::Less)
    }

    /// Strict precedence comparison.
    pub fn lt(&self, other: &Version) -> (r: bool)
        ensures
            r == version_lt(*self, *other),
    {
        matches!(self.compare(other), core::cmp::Ordering::Less)
    }
}

/// Read a tool's reported version out of its version output: the line
/// `veryl <version>`, with trailing whitespace ignored.
///
/// Succeeds exactly when the output is the tool name, one space, and a
/// canonical version text.
pub fn parse_version_output(s: &str) -> (r: Result<Version, Error>)
    ensures
        ({
            let body = trim_end_ws(s@.subrange("veryl "@.len() as int, s@.len() as int));
            &&& r matches Ok(v) ==> is_prefix(s@, "veryl "@) && spec_version_str(v) == body
            &&& forall|v: Version|
                is_prefix(s@, "veryl "@) && spec_version_str(v) == body ==> r == Ok::<
                    Version,
                    Error,
                >(v)
            &&& r is Err ==> r == Err::<Version, Error>(Error::ParseError)
        }),
{
    proof {
        reveal_strlit("veryl ");
        assert("veryl "@.len() == 6);
    }
    if !str_starts_with(s, "veryl ") {
        return Err(Error::ParseError);
    }
    let len = s.unicode_len();
    let mut end: usize = len;
    loop
        invariant
            len == s@.len(),
            6 <= len,
            6 <= end <= len,
            forall|k: int| end <= k < len ==> is_ws(#[trigger] s@[k]),
        ensures
            len == s@.len(),
            6 <= end <= len,
            forall|k: int| end <= k < len ==> is_ws(#[trigger] s@[k]),
            end > 6 ==> !is_ws(s@[end - 1]),
        decreases end,
    {
        if end == 6 {
            break;
        }
        let c = s.get_char(end - 1);
        if !(c == ' ' || c == '\t' || c == '\n' || c == '\r') {
            break;
        }
        end -= 1;
    }
    let ghost tail = s@.subrange(6, s@.len() as int);
    proof {
        if end > 6 {
            assert(!is_ws(s@[end - 1]));
        }
        assert(forall|k: int| end - 6 <= k < tail.len() ==> is_ws(#[trigger] tail[k])) by {
            assert(forall|k: int| 0 <= k < tail.len() ==> tail[k] == #[trigger] s@[k + 6]);
        }
        if end - 6 > 0 {
            assert(tail[end - 6 - 1] == s@[end - 1]);
        }
        lemma_trim_end(tail, end - 6);
        assert(tail.subrange(0, end - 6) =~= s@.subrange(6, end as int));
    }
    let body = s.substring_char(6, end);
    match Version::parse(body) {
        Ok(v) => Ok(v),
        Err(_) => Err(Error::ParseError),
    }
}

/// When the text is a version's canonical text, a first dot found at `i`
/// sits exactly after the major component.
proof fn lemma_first_dot(v: Version, s: Seq<char>, i: int)
    requires
        spec_version_str(v) == s,
        0 <= i < s.len(),
        s[i] == '.',
        forall|k: int| 0 <= k < i ==> s[k] != '.',
    ensures
        i == dec_str(v.major as nat).len(),
{
    lemma_version_str_facts(v);
    let la = dec_str(v.major as nat).len() as int;
    if i < la {
        assert(is_digit(s[i]));
    }
    if la < i {
        assert(s[la] == '.');
    }
}

/// When the text is a version's canonical text, a second dot found at `j`
/// (the first one from `i + 1` on) sits exactly after the minor component.
proof fn lemma_second_dot(v: Version, s: Seq<char>, i: int, j: int)
    requires
        spec_version_str(v) == s,
        0 <= i < s.len(),
        s[i] == '.',
        forall|k: int| 0 <= k < i ==> s[k] != '.',
        i < j < s.len(),
        s[j] == '.',
        forall|k: int| i < k < j ==> s[k] != '.',
    ensures
        j == dec_str(v.major as nat).len() + 1 + dec_str(v.minor as nat).len(),
{
    lemma_version_str_facts(v);
    lemma_first_dot(v, s, i);
    let la = dec_str(v.major as nat).len() as int;
    let lb = dec_str(v.minor as nat).len() as int;
    if j < la + 1 + lb {
        assert(is_digit(s[j])) by {
            assert(s[la + 1 + (j - la - 1)] == dec_str(v.minor as nat)[j - la - 1]);
        }
    }
    if la + 1 + lb < j {
        assert(s[la + 1 + lb] == '.');
    }
}

/// A canonical component string both is canonical and fits in 64 bits.
proof fn lemma_canonical_component(a: Seq<char>, n: u64)
    requires
        is_canonical_dec(a),
        dec_val(a) == n as nat,
    ensures
        is_canonical_dec(a) && dec_val(a) <= u64::MAX,
{
}

} // verus!

