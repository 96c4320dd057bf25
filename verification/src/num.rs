use vstd::prelude::*;

verus! {

/// `c` is a decimal digit.
pub open spec fn is_digit(c: char) -> bool {
    '0' <= c && c <= '9'
}

/// Numeric value of a digit character.
pub open spec fn digit_val(c: char) -> nat {
    (c as nat - '0' as nat) as nat
}

/// The digit character for a value below ten.
pub open spec fn digit_char(d: nat) -> char
    recommends
        d < 10,
{
    if d == 0 {
        '0'
    } else if d == 1 {
        '1'
    } else if d == 2 {
        '2'
    } else if d == 3 {
        '3'
    } else if d == 4 {
        '4'
    } else if d == 5 {
        '5'
    } else if d == 6 {
        '6'
    } else if d == 7 {
        '7'
    } else if d == 8 {
        '8'
    } else {
        '9'
    }
}

/// Every character of `s` is a decimal digit.
pub open spec fn all_digits(s: Seq<char>) -> bool {
    forall|i: int| 0 <= i < s.len() ==> is_digit(#[trigger] s[i])
}

/// The value of a digit string, read in base ten.
pub open spec fn dec_val(s: Seq<char>) -> nat
    decreases s.len(),
{
    if s.len() == 0 {
        0
    } else {
        dec_val(s.drop_last()) * 10 + digit_val(s.last())
    }
}

/// `s` is the canonical decimal form of a number: non-empty, digits only,
/// and without a leading zero (except for the single digit `0` itself).
pub open spec fn is_canonical_dec(s: Seq<char>) -> bool {
    &&& s.len() > 0
    &&& all_digits(s)
    &&& (s.len() > 1 ==> s[0] != '0')
}

/// The canonical decimal digit string of `n`.
pub open spec fn dec_str(n: nat) -> Seq<char>
    decreases n,
{
    if n < 10 {
        seq![digit_char(n)]
    } else {
        dec_str(n / 10).push(digit_char(n % 10))
    }
}

pub proof fn lemma_digit_char_val(d: nat)
    requires
        d < 10,
    ensures
        is_digit(digit_char(d)),
        digit_val(digit_char(d)) == d,
{
}

/// The value of a one-digit string is the value of its digit.
pub proof fn lemma_dec_val_singleton(c: char)
    ensures
        dec_val(seq![c]) == digit_val(c),
{
    let s = seq![c];
    assert(s.len() == 1);
    assert(s.drop_last() =~= Seq::<char>::empty());
    assert(dec_val(Seq::<char>::empty()) == 0);
    assert(s.last() == c);
    assert(dec_val(s) == dec_val(s.drop_last()) * 10 + digit_val(s.last()));
}

/// The canonical digit string of `n` consists of digits and has no leading
/// zero, and its value is `n`.
pub proof fn lemma_dec_str_canonical(n: nat)
    ensures
        is_canonical_dec(dec_str(n)),
        dec_val(dec_str(n)) == n,
        n < 10 ==> dec_str(n).len() == 1,
        n >= 10 ==> dec_str(n).len() > 1,
    decreases n,
{
    if n < 10 {
        lemma_digit_char_val(n);
        assert(dec_str(n) == seq![digit_char(n)]);
        lemma_dec_val_singleton(digit_char(n));
    } else {
        lemma_dec_str_canonical(n / 10);
        lemma_digit_char_val(n % 10);
        let s = dec_str(n / 10);
        let t = s.push(digit_char(n % 10));
        assert(t.drop_last() =~= s);
        assert(t.last() == digit_char(n % 10));
        assert(dec_val(t) == dec_val(s) * 10 + digit_val(digit_char(n % 10)));
        assert(dec_val(t) == (n / 10) * 10 + n % 10);
        assert((n / 10) * 10 + n % 10 == n) by (nonlinear_arith);
        assert(t[0] == s[0]);
        assert(n / 10 >= 1);
        assert(s[0] != '0') by {
            if s.len() == 1 {
                assert(s[0] == digit_char(n / 10));
                assert(dec_val(s) == n / 10 >= 1);
                assert(digit_val(s[0]) >= 1);
            }
        }
        assert(forall|i: int| 0 <= i < t.len() ==> is_digit(#[trigger] t[i])) by {
            assert(forall|i: int| 0 <= i < s.len() ==> is_digit(#[trigger] s[i]));
            assert(t.len() == s.len() + 1);
            assert(forall|i: int| 0 <= i < s.len() ==> t[i] == #[trigger] s[i]);
            assert(is_digit(t[s.len() as int]));
        }
    }
}

/// A non-empty digit string with a non-zero leading digit has a positive
/// value, at least ten when it is more than one digit long.
pub proof fn lemma_dec_val_positive(s: Seq<char>)
    requires
        s.len() > 0,
        all_digits(s),
        s[0] != '0',
    ensures
        dec_val(s) >= 1,
        s.len() > 1 ==> dec_val(s) >= 10,
    decreases s.len(),
{
    if s.len() == 1 {
        assert(s =~= seq![s[0]]);
        lemma_dec_val_singleton(s[0]);
        assert(is_digit(s[0]));
        assert(digit_val(s[0]) >= 1);
    } else {
        let p = s.drop_last();
        assert(p[0] == s[0]);
        assert(all_digits(p)) by {
            assert(forall|i: int| 0 <= i < p.len() ==> p[i] == #[trigger] s[i]);
        }
        lemma_dec_val_positive(p);
        assert(dec_val(s) == dec_val(p) * 10 + digit_val(s.last()));
        assert(dec_val(p) * 10 >= 10) by (nonlinear_arith)
            requires
                dec_val(p) >= 1,
        ;
    }
}

/// A canonical digit string is exactly the canonical form of its value.
pub proof fn lemma_canonical_dec_unique(s: Seq<char>)
    requires
        is_canonical_dec(s),
    ensures
        s == dec_str(dec_val(s)),
    decreases s.len(),
{
    if s.len() == 1 {
        assert(s =~= seq![s[0]]);
        lemma_dec_val_singleton(s[0]);
        assert(is_digit(s[0]));
        assert(dec_val(s) < 10);
        assert(dec_str(dec_val(s)) == seq![digit_char(digit_val(s[0]))]);
        assert(digit_char(digit_val(s[0])) == s[0]) by {
            assert(is_digit(s[0]));
        }
        assert(s =~= dec_str(dec_val(s)));
    } else {
        let p = s.drop_last();
        let d = digit_val(s.last());
        assert(p.len() > 0);
        assert(all_digits(p)) by {
            assert(forall|i: int| 0 <= i < p.len() ==> p[i] == #[trigger] s[i]);
        }
        assert(p[0] == s[0]);
        assert(is_canonical_dec(p));
        lemma_canonical_dec_unique(p);
        lemma_dec_val_positive(p);
        let n = dec_val(s);
        assert(n == dec_val(p) * 10 + d);
        assert(d < 10) by {
            assert(is_digit(s.last()));
        }
        assert(n / 10 == dec_val(p) && n % 10 == d) by (nonlinear_arith)
            requires
                n == dec_val(p) * 10 + d,
                0 <= d < 10,
        ;
        assert(n >= 10) by {
            assert(dec_val(p) * 10 >= 10) by (nonlinear_arith)
                requires
                    dec_val(p) >= 1,
            ;
        }
        assert(dec_str(n) == dec_str(n / 10).push(digit_char(n % 10)));
        lemma_digit_char_val(d);
        assert(digit_char(d) == s.last()) by {
            assert(is_digit(s.last()));
        }
        assert(s =~= p.push(s.last()));
        assert(dec_str(n) == p.push(digit_char(d)));
        assert(s =~= dec_str(n));
    }
}

/// Extending a digit string on the right never decreases its value.
pub proof fn lemma_dec_val_prefix_le(s: Seq<char>, i: int)
    requires
        0 <= i <= s.len(),
    ensures
        dec_val(s.subrange(0, i)) <= dec_val(s),
    decreases s.len() - i,
{
    if i == s.len() {
        assert(s.subrange(0, i) =~= s);
    } else {
        let t = s.subrange(0, i + 1);
        lemma_dec_val_prefix_le(s, i + 1);
        assert(t.drop_last() =~= s.subrange(0, i));
        assert(dec_val(t) == dec_val(s.subrange(0, i)) * 10 + digit_val(t.last()));
        assert(dec_val(s.subrange(0, i)) * 10 >= dec_val(s.subrange(0, i))) by (nonlinear_arith);
    }
}

/// Parse the decimal digits of `s` between `from` and `to`.
///
/// Returns the value exactly when that range is a non-empty, all-digit
/// string whose value fits in `u64`; `None` otherwise.
pub fn parse_dec_range(s: &str, from: usize, to: usize) -> (r: Option<u64>)
    requires
        from <= to <= s@.len(),
    ensures
        match r {
            Some(v) => {
                let part = s@.subrange(from as int, to as int);
                &&& to > from
                &&& all_digits(part)
                &&& dec_val(part) == v as nat
            },
            None => {
                let part = s@.subrange(from as int, to as int);
                ||| to == from
                ||| !all_digits(part)
                ||| dec_val(part) > u64::MAX
            },
        },
{
    if from == to {
        proof {
            assert(s@.subrange(from as int, to as int).len() == 0);
        }
        return None;
    }
    let ghost whole = s@.subrange(from as int, to as int);
    let mut acc: u64 = 0;
    let mut i: usize = from;
    while i < to
        invariant
            from <= i <= to <= s@.len(),
            whole == s@.subrange(from as int, to as int),
            all_digits(s@.subrange(from as int, i as int)),
            acc as nat == dec_val(s@.subrange(from as int, i as int)),
        decreases to - i,
    {
        let c = s.get_char(i);
        if !('0' <= c && c <= '9') {
            proof {
                assert(whole[i - from] == c);
                assert(!all_digits(whole));
            }
            return None;
        }
        let d: u64 = (c as u32 as u64) - ('0' as u32 as u64);
        proof {
            assert(d == digit_val(c));
        }
        let ghost prev = s@.subrange(from as int, i as int);
        let ghost cur = s@.subrange(from as int, i + 1 as int);
        proof {
            assert(cur.drop_last() =~= prev);
            assert(cur.last() == c);
            assert(dec_val(cur) == dec_val(prev) * 10 + digit_val(c));
            assert(all_digits(cur)) by {
                assert(forall|j: int| 0 <= j < prev.len() ==> cur[j] == #[trigger] prev[j]);
            }
        }
        let m = acc.checked_mul(10);
        match m {
            Some(m10) => {
                let a = m10.checked_add(d);
                match a {
                    Some(next) => {
                        acc = next;
                    },
                    None => {
                        proof {
                            assert(dec_val(cur) > u64::MAX);
                            lemma_overflow_rest(s@, from as int, i + 1, to as int);
                        }
                        return None;
                    },
                }
            },
            None => {
                proof {
                    assert(dec_val(prev) * 10 > u64::MAX);
                    assert(dec_val(cur) >= dec_val(prev) * 10);
                    lemma_overflow_rest(s@, from as int, i + 1, to as int);
                }
                return None;
            },
        }
        i += 1;
    }
    proof {
        assert(s@.subrange(from as int, i as int) =~= whole);
    }
    Some(acc)
}

/// If a prefix of the range already exceeds `u64::MAX`, so does the whole
/// range (or the whole range has a non-digit character).
proof fn lemma_overflow_rest(s: Seq<char>, from: int, mid: int, to: int)
    requires
        0 <= from <= mid <= to <= s.len(),
        dec_val(s.subrange(from, mid)) > u64::MAX,
    ensures
        !all_digits(s.subrange(from, to)) || dec_val(s.subrange(from, to)) > u64::MAX,
{
    let whole = s.subrange(from, to);
    let part = s.subrange(from, mid);
    assert(whole.subrange(0, mid - from) =~= part);
    lemma_dec_val_prefix_le(whole, mid - from);
}

/// Append the canonical decimal form of `n` to `out`.
pub fn push_dec(out: &mut String, n: u64)
    ensures
        final(out)@ == old(out)@ + dec_str(n as nat),
    decreases n,
{
    if n >= 10 {
        let ghost mid = old(out)@ + dec_str((n / 10) as nat);
        push_dec(out, n / 10);
        let d = n % 10;
        push_digit(out, d);
        proof {
            assert(out@ == mid + seq![digit_char((n % 10) as nat)]);
            assert(dec_str(n as nat) == dec_str((n / 10) as nat).push(
                digit_char((n % 10) as nat),
            )) by {
                assert(n as nat / 10 == (n / 10) as nat);
                assert(n as nat % 10 == (n % 10) as nat);
            }
            assert(dec_str((n / 10) as nat).push(digit_char((n % 10) as nat)) =~= dec_str(
                (n / 10) as nat,
            ) + seq![digit_char((n % 10) as nat)]);
            assert(out@ =~= old(out)@ + dec_str(n as nat));
        }
    } else {
        push_digit(out, n);
        proof {
            assert(out@ =~= old(out)@ + dec_str(n as nat));
        }
    }
}

/// Append one digit character to `out`.
fn push_digit(out: &mut String, d: u64)
    requires
        d < 10,
    ensures
        final(out)@ == old(out)@ + seq![digit_char(d as nat)],
{
    proof {
        reveal_strlit("0");
        reveal_strlit("1");
        reveal_strlit("2");
        reveal_strlit("3");
        reveal_strlit("4");
        reveal_strlit("5");
        reveal_strlit("6");
        reveal_strlit("7");
        reveal_strlit("8");
        reveal_strlit("9");
    }
    if d == 0 {
        out.append("0");
    } else if d == 1 {
        out.append("1");
    } else if d == 2 {
        out.append("2");
    } else if d == 3 {
        out.append("3");
    } else if d == 4 {
        out.append("4");
    } else if d == 5 {
        out.append("5");
    } else if d == 6 {
        out.append("6");
    } else if d == 7 {
        out.append("7");
    } else if d == 8 {
        out.append("8");
    } else {
        out.append("9");
    }
}

} // verus!
