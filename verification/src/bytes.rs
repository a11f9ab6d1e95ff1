//! Byte-sequence helpers shared by the path sandbox, the FTP engine and the
//! HTTP router: trimming, case mapping, searching and decimal formatting,
//! each with an exact specification.

use vstd::prelude::*;

verus! {

/// True when byte `b` is ASCII whitespace (space, tab, line feed,
/// carriage return).
pub open spec fn is_ws(b: u8) -> bool {
    b == 32 || b == 9 || b == 10 || b == 13
}

/// Executable test matching `is_ws`.
pub fn byte_is_ws(b: u8) -> (r: bool)
    ensures
        r == is_ws(b),
{
    b == 32 || b == 9 || b == 10 || b == 13
}

/// Bytes equal as sequences.
pub fn bytes_eq(a: &[u8], b: &[u8]) -> (r: bool)
    ensures
        r == (a@ == b@),
{
    if a.len() != b.len() {
        proof {
            assert(a@ != b@) by {
                assert(a@.len() != b@.len());
            }
        }
        return false;
    }
    let mut i: usize = 0;
    while i < a.len()
        invariant
            i <= a.len(),
            a@.len() == b@.len(),
            forall|k: int| 0 <= k < i ==> a@[k] == b@[k],
        decreases a.len() - i,
    {
        if a[i] != b[i] {
            return false;
        }
        i += 1;
    }
    proof {
        assert(a@ =~= b@);
    }
    true
}

/// `s` with leading ASCII whitespace removed.
pub open spec fn trim_start_spec(s: Seq<u8>) -> Seq<u8>
    decreases s.len(),
{
    if s.len() > 0 && is_ws(s[0]) {
        trim_start_spec(s.drop_first())
    } else {
        s
    }
}

/// `s` with trailing ASCII whitespace removed.
pub open spec fn trim_end_spec(s: Seq<u8>) -> Seq<u8>
    decreases s.len(),
{
    if s.len() > 0 && is_ws(s.last()) {
        trim_end_spec(s.drop_last())
    } else {
        s
    }
}

/// `s` with both leading and trailing ASCII whitespace removed.
pub open spec fn trim_spec(s: Seq<u8>) -> Seq<u8> {
    trim_end_spec(trim_start_spec(s))
}

proof fn lemma_trim_start_at(s: Seq<u8>, i: int)
    requires
        0 <= i <= s.len(),
        forall|k: int| 0 <= k < i ==> is_ws(s[k]),
        i == s.len() || !is_ws(s[i]),
    ensures
        trim_start_spec(s) =~= s.subrange(i, s.len() as int),
    decreases i,
{
    if i == 0 {
        assert(s.subrange(0, s.len() as int) =~= s);
    } else {
        assert(is_ws(s[0]));
        lemma_trim_start_at(s.drop_first(), i - 1);
        assert(s.drop_first().subrange(i - 1, s.drop_first().len() as int) =~= s.subrange(
            i,
            s.len() as int,
        ));
    }
}

proof fn lemma_trim_end_at(s: Seq<u8>, j: int)
    requires
        0 <= j <= s.len(),
        forall|k: int| j <= k < s.len() ==> is_ws(s[k]),
        j == 0 || !is_ws(s[j - 1]),
    ensures
        trim_end_spec(s) =~= s.subrange(0, j),
    decreases s.len() - j,
{
    if j == s.len() {
        assert(s.subrange(0, s.len() as int) =~= s);
    } else {
        assert(is_ws(s.last()));
        lemma_trim_end_at(s.drop_last(), j);
        assert(s.drop_last().subrange(0, j) =~= s.subrange(0, j));
    }
}

/// Copy of `s` with leading and trailing ASCII whitespace removed.
pub fn trim_bytes(s: &[u8]) -> (r: Vec<u8>)
    ensures
        r@ == trim_spec(s@),
{
    let mut i: usize = 0;
    while i < s.len() && byte_is_ws(s[i])
        invariant
            i <= s.len(),
            forall|k: int| 0 <= k < i ==> is_ws(s@[k]),
        decreases s.len() - i,
    {
        i += 1;
    }
    proof {
        lemma_trim_start_at(s@, i as int);
    }
    let mut j: usize = s.len();
    while j > i && byte_is_ws(s[j - 1])
        invariant
            i <= j <= s.len(),
            forall|k: int| 0 <= k < i ==> is_ws(s@[k]),
            forall|k: int| j <= k < s.len() ==> is_ws(s@[k]),
        decreases j,
    {
        j -= 1;
    }
    proof {
        let t = trim_start_spec(s@);
        assert(t =~= s@.subrange(i as int, s@.len() as int));
        lemma_trim_end_at(t, j - i);
        assert(t.subrange(0, j - i) =~= s@.subrange(i as int, j as int));
    }
    let mut out: Vec<u8> = Vec::new();
    let mut k: usize = i;
    while k < j
        invariant
            i <= k <= j <= s.len(),
            out@ =~= s@.subrange(i as int, k as int),
        decreases j - k,
    {
        out.push(s[k]);
        proof {
            assert(out@ =~= s@.subrange(i as int, k + 1 as int));
        }
        k += 1;
    }
    proof {
        assert(out@ =~= s@.subrange(i as int, j as int));
    }
    out
}

/// True when `s` holds the two-byte substring `..` anywhere.
pub open spec fn has_dotdot(s: Seq<u8>) -> bool {
    exists|i: int| 0 <= i && i + 1 < s.len() && #[trigger] s[i] == 46 && s[i + 1] == 46
}

/// Executable test matching `has_dotdot`.
pub fn contains_dotdot(s: &[u8]) -> (r: bool)
    ensures
        r == has_dotdot(s@),
{
    if s.len() < 2 {
        return false;
    }
    let mut i: usize = 0;
    while i + 1 < s.len()
        invariant
            i + 1 <= s.len(),
            forall|k: int| 0 <= k && k + 1 < i + 1 ==> !(#[trigger] s@[k] == 46 && s@[k + 1] == 46),
        decreases s.len() - i,
    {
        if s[i] == 46 && s[i + 1] == 46 {
            return true;
        }
        i += 1;
    }
    false
}

/// Byte `b` mapped to ASCII upper case.
pub open spec fn upper_byte(b: u8) -> u8 {
    if 97 <= b <= 122 {
        (b - 32) as u8
    } else {
        b
    }
}

/// Byte `b` mapped to ASCII lower case.
pub open spec fn lower_byte(b: u8) -> u8 {
    if 65 <= b <= 90 {
        (b + 32) as u8
    } else {
        b
    }
}

/// `s` mapped bytewise to ASCII upper case.
pub open spec fn upper_spec(s: Seq<u8>) -> Seq<u8> {
    s.map_values(|b: u8| upper_byte(b))
}

/// Copy of `s` in ASCII upper case.
pub fn to_upper(s: &[u8]) -> (r: Vec<u8>)
    ensures
        r@ == upper_spec(s@),
{
    let mut out: Vec<u8> = Vec::new();
    let mut i: usize = 0;
    while i < s.len()
        invariant
            i <= s.len(),
            out@.len() == i,
            forall|k: int| 0 <= k < i ==> out@[k] == upper_byte(s@[k]),
        decreases s.len() - i,
    {
        let b = s[i];
        if 97 <= b && b <= 122 {
            out.push(b - 32);
        } else {
            out.push(b);
        }
        i += 1;
    }
    proof {
        assert(out@ =~= upper_spec(s@));
    }
    out
}

/// Sequences equal up to ASCII case.
pub open spec fn eq_ignore_case_spec(a: Seq<u8>, b: Seq<u8>) -> bool {
    a.map_values(|x: u8| lower_byte(x)) == b.map_values(|x: u8| lower_byte(x))
}

/// Executable test matching `eq_ignore_case_spec`.
pub fn eq_ignore_case(a: &[u8], b: &[u8]) -> (r: bool)
    ensures
        r == eq_ignore_case_spec(a@, b@),
{
    let ghost la = a@.map_values(|x: u8| lower_byte(x));
    let ghost lb = b@.map_values(|x: u8| lower_byte(x));
    if a.len() != b.len() {
        proof {
            assert(la.len() != lb.len());
        }
        return false;
    }
    let mut i: usize = 0;
    while i < a.len()
        invariant
            i <= a.len(),
            a@.len() == b@.len(),
            la == a@.map_values(|x: u8| lower_byte(x)),
            lb == b@.map_values(|x: u8| lower_byte(x)),
            forall|k: int| 0 <= k < i ==> lower_byte(a@[k]) == lower_byte(b@[k]),
        decreases a.len() - i,
    {
        let mut x = a[i];
        let mut y = b[i];
        if 65 <= x && x <= 90 {
            x = x + 32;
        }
        if 65 <= y && y <= 90 {
            y = y + 32;
        }
        if x != y {
            proof {
                assert(la[i as int] != lb[i as int]);
            }
            return false;
        }
        i += 1;
    }
    proof {
        assert(la =~= lb);
    }
    true
}

/// True when `s` starts with `p`.
pub open spec fn starts_with_spec(s: Seq<u8>, p: Seq<u8>) -> bool {
    p.len() <= s.len() && s.subrange(0, p.len() as int) == p
}

/// Executable test matching `starts_with_spec`.
pub fn starts_with(s: &[u8], p: &[u8]) -> (r: bool)
    ensures
        r == starts_with_spec(s@, p@),
{
    if p.len() > s.len() {
        return false;
    }
    let mut i: usize = 0;
    while i < p.len()
        invariant
            i <= p.len() <= s.len(),
            forall|k: int| 0 <= k < i ==> s@[k] == p@[k],
        decreases p.len() - i,
    {
        if s[i] != p[i] {
            proof {
                assert(s@.subrange(0, p@.len() as int)[i as int] != p@[i as int]);
            }
            return false;
        }
        i += 1;
    }
    proof {
        assert(s@.subrange(0, p@.len() as int) =~= p@);
    }
    true
}

/// True when `s` ends with `p`.
pub open spec fn ends_with_spec(s: Seq<u8>, p: Seq<u8>) -> bool {
    p.len() <= s.len() && s.subrange(s.len() - p.len(), s.len() as int) == p
}

/// Executable test matching `ends_with_spec`.
pub fn ends_with(s: &[u8], p: &[u8]) -> (r: bool)
    ensures
        r == ends_with_spec(s@, p@),
{
    if p.len() > s.len() {
        return false;
    }
    let off = s.len() - p.len();
    let ghost tail = s@.subrange(s@.len() - p@.len(), s@.len() as int);
    let mut i: usize = 0;
    while i < p.len()
        invariant
            i <= p@.len() <= s@.len() <= usize::MAX,
            off == s@.len() - p@.len(),
            tail == s@.subrange(s@.len() - p@.len(), s@.len() as int),
            forall|k: int| 0 <= k < i ==> tail[k] == p@[k],
        decreases p.len() - i,
    {
        if s[off + i] != p[i] {
            proof {
                assert(tail[i as int] != p@[i as int]);
            }
            return false;
        }
        i += 1;
    }
    proof {
        assert(tail =~= p@);
    }
    true
}

/// Decimal digits of `n`, most significant first.
pub open spec fn dec_spec(n: nat) -> Seq<u8>
    decreases n,
{
    if n < 10 {
        seq![(48 + n) as u8]
    } else {
        dec_spec(n / 10).push((48 + n % 10) as u8)
    }
}

/// `n` written in decimal ASCII.
pub fn dec_u64(n: u64) -> (r: Vec<u8>)
    ensures
        r@ == dec_spec(n as nat),
{
    let mut rev: Vec<u8> = Vec::new();
    let mut m: u64 = n;
    loop
        invariant_except_break
            (rev@.len() == 0 && m == n) || (m > 0 && dec_spec(n as nat) == dec_spec(m as nat)
                + rev@.reverse()),
        ensures
            dec_spec(n as nat) == rev@.reverse(),
        decreases m,
    {
        let ghost before = m as nat;
        let ghost rev_old = rev@;
        let d: u8 = (m % 10) as u8;
        m = m / 10;
        rev.push(48 + d);
        proof {
            assert(rev@.reverse() =~= seq![(48 + before % 10) as u8] + rev_old.reverse());
            if before < 10 {
                assert(dec_spec(before) =~= seq![(48 + before) as u8]);
                if rev_old.len() == 0 {
                    assert(dec_spec(n as nat) =~= rev@.reverse());
                } else {
                    assert(dec_spec(n as nat) =~= dec_spec(before) + rev_old.reverse());
                    assert(dec_spec(before) + rev_old.reverse() =~= rev@.reverse());
                }
            } else {
                assert(dec_spec(before) == dec_spec(before / 10).push((48 + before % 10) as u8));
                assert(dec_spec(before / 10).push((48 + before % 10) as u8) =~= dec_spec(
                    before / 10,
                ) + seq![(48 + before % 10) as u8]);
                if rev_old.len() == 0 {
                    assert(dec_spec(n as nat) =~= dec_spec(m as nat) + rev@.reverse());
                } else {
                    assert(dec_spec(n as nat) =~= dec_spec(before) + rev_old.reverse());
                    assert(dec_spec(before) + rev_old.reverse() =~= dec_spec(m as nat)
                        + rev@.reverse());
                }
            }
        }
        if m == 0 {
            break;
        }
    }
    let mut out: Vec<u8> = Vec::new();
    let mut i: usize = rev.len();
    while i > 0
        invariant
            i <= rev.len(),
            out@ =~= rev@.subrange(i as int, rev@.len() as int).reverse(),
        decreases i,
    {
        i -= 1;
        out.push(rev[i]);
        proof {
            assert(out@ =~= rev@.subrange(i as int, rev@.len() as int).reverse());
        }
    }
    proof {
        assert(rev@.subrange(0, rev@.len() as int) =~= rev@);
        assert(out@ =~= rev@.reverse());
    }
    out
}

/// Copy of `s[i..j]`.
pub fn copy_range(s: &[u8], i: usize, j: usize) -> (r: Vec<u8>)
    requires
        i <= j <= s@.len(),
    ensures
        r@ == s@.subrange(i as int, j as int),
{
    let mut out: Vec<u8> = Vec::new();
    let mut k: usize = i;
    while k < j
        invariant
            i <= k <= j <= s@.len(),
            out@ =~= s@.subrange(i as int, k as int),
        decreases j - k,
    {
        out.push(s[k]);
        proof {
            assert(out@ =~= s@.subrange(i as int, k + 1 as int));
        }
        k += 1;
    }
    out
}

/// True when every byte of `s` is an ASCII decimal digit.
pub open spec fn all_digits(s: Seq<u8>) -> bool {
    forall|i: int| 0 <= i < s.len() ==> 48 <= #[trigger] s[i] <= 57
}

/// Value of the decimal digit string `s` (empty reads as 0).
pub open spec fn dec_value(s: Seq<u8>) -> nat
    decreases s.len(),
{
    if s.len() == 0 {
        0
    } else {
        dec_value(s.drop_last()) * 10 + (if 48 <= s.last() {
            (s.last() - 48) as nat
        } else {
            0nat
        })
    }
}

/// The digits accepted by `parse_usize`: an optional leading `+`,
/// then at least one digit and nothing else.
pub open spec fn parse_digits(s: Seq<u8>) -> Seq<u8> {
    if s.len() > 0 && s[0] == 43 {
        s.drop_first()
    } else {
        s
    }
}

proof fn lemma_mul10_overflow(a: nat, m: nat)
    requires
        a > m / 10,
    ensures
        a * 10 > m,
{
    vstd::arithmetic::div_mod::lemma_fundamental_div_mod(m as int, 10);
    vstd::arithmetic::div_mod::lemma_mod_bound(m as int, 10);
    vstd::arithmetic::mul::lemma_mul_inequality((m / 10 + 1) as int, a as int, 10);
}

proof fn lemma_dec_value_grows(s: Seq<u8>, i: int)
    requires
        0 <= i <= s.len(),
    ensures
        dec_value(s.subrange(0, i)) <= dec_value(s),
    decreases s.len() - i,
{
    if i < s.len() {
        lemma_dec_value_grows(s, i + 1);
        let a = s.subrange(0, i);
        let b = s.subrange(0, i + 1);
        assert(b.drop_last() =~= a);
        assert(dec_value(a) <= dec_value(a) * 10) by (nonlinear_arith)
            requires
                dec_value(a) >= 0,
        ;
        assert(dec_value(a) <= dec_value(b));
    } else {
        assert(s.subrange(0, i) =~= s);
    }
}

/// Parse `s` as an unsigned decimal number the way `str::parse::<usize>`
/// reads it: an optional leading `+`, then only digits; fails when empty,
/// when a non-digit appears, or when the value does not fit in `usize`.
pub fn parse_usize(s: &[u8]) -> (r: Option<usize>)
    ensures
        match r {
            Some(v) => {
                let d = parse_digits(s@);
                d.len() > 0 && all_digits(d) && dec_value(d) == v && dec_value(d) <= usize::MAX
            },
            None => {
                let d = parse_digits(s@);
                d.len() == 0 || !all_digits(d) || dec_value(d) > usize::MAX
            },
        },
{
    let start: usize = if s.len() > 0 && s[0] == 43 {
        1
    } else {
        0
    };
    let ghost d = parse_digits(s@);
    proof {
        assert(d =~= s@.subrange(start as int, s@.len() as int));
    }
    if s.len() == start {
        return None;
    }
    let mut acc: usize = 0;
    let mut i: usize = start;
    while i < s.len()
        invariant
            start <= i <= s@.len(),
            d == parse_digits(s@),
            d =~= s@.subrange(start as int, s@.len() as int),
            all_digits(d.subrange(0, i - start)),
            acc == dec_value(d.subrange(0, i - start)),
        decreases s.len() - i,
    {
        let b = s[i];
        if b < 48 || b > 57 {
            proof {
                assert(d[i - start] == s@[i as int]);
                assert(!(48 <= d[i - start] <= 57));
                assert(!all_digits(d));
            }
            return None;
        }
        let dig: usize = (b - 48) as usize;
        let ghost pre = d.subrange(0, i - start);
        let ghost post = d.subrange(0, i + 1 - start);
        proof {
            assert(post.drop_last() =~= pre);
            assert(post.last() == b);
            assert(dec_value(post) == dec_value(pre) * 10 + dig);
        }
        if acc > usize::MAX / 10 {
            proof {
                lemma_mul10_overflow(dec_value(pre), usize::MAX as nat);
                assert(dec_value(post) > usize::MAX);
                lemma_dec_value_grows(d, i + 1 - start);
                assert(dec_value(d) > usize::MAX);
            }
            return None;
        }
        let next = acc * 10;
        if dig > usize::MAX - next {
            proof {
                assert(dec_value(post) > usize::MAX);
                lemma_dec_value_grows(d, i + 1 - start);
                assert(dec_value(d) > usize::MAX);
            }
            return None;
        }
        acc = next + dig;
        i += 1;
        proof {
            assert(all_digits(post)) by {
                assert(forall|k: int| 0 <= k < post.len() - 1 ==> post[k] == pre[k]);
            }
        }
    }
    proof {
        assert(d.subrange(0, s@.len() - start) =~= d);
    }
    Some(acc)
}

} // verus!
