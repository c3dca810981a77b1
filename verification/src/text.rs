//! Byte-string helpers: substring search, whitespace tokenization and
//! fixed-point numeral parsing, each with an exact functional specification.

use vstd::prelude::*;

verus! {

/// Largest number of digits accepted in the integer part of a numeral; longer
/// numerals are treated as unparseable.  Keeps every parsed milli-value below
/// `10^15`, so downstream arithmetic stays within machine bounds.
pub const MAX_UNIT_DIGITS: usize = 12;

/// ASCII whitespace: the separators used when a name is split into tokens.
pub open spec fn is_ws(b: u8) -> bool {
    b == 32 || b == 9 || b == 10 || b == 11 || b == 12 || b == 13
}

/// ASCII decimal digit.
pub open spec fn is_digit(b: u8) -> bool {
    48 <= b && b <= 57
}

/// The needle occurs as a contiguous run at position `i` of the haystack.
pub open spec fn matches_at(h: Seq<u8>, n: Seq<u8>, i: int) -> bool {
    0 <= i && i + n.len() <= h.len() && h.subrange(i, i + n.len()) == n
}

/// The needle occurs somewhere inside the haystack.
pub open spec fn contains_seq(h: Seq<u8>, n: Seq<u8>) -> bool {
    exists|i: int| matches_at(h, n, i)
}

/// Substring search by scanning every candidate position.
#[verifier::loop_isolation(false)]
pub fn contains_subseq(h: &[u8], n: &[u8]) -> (r: bool)
    ensures
        r == contains_seq(h@, n@),
{
    if n.len() > h.len() {
        assert(forall|i: int| !matches_at(h@, n@, i));
        return false;
    }
    let mut i: usize = 0;
    while i <= h.len() - n.len()
        invariant
            i <= h@.len() - n@.len() + 1,
            forall|k: int| 0 <= k < i ==> !matches_at(h@, n@, k),
        decreases h@.len() - n@.len() - i + 1,
    {
        let mut j: usize = 0;
        while j < n.len() && h[i + j] == n[j]
            invariant
                i <= h@.len() - n@.len(),
                j <= n@.len(),
                forall|k: int| 0 <= k < j ==> h@[i + k] == n@[k],
            decreases n@.len() - j,
        {
            j += 1;
        }
        if j == n.len() {
            assert(h@.subrange(i as int, i + n@.len()) =~= n@);
            assert(matches_at(h@, n@, i as int));
            return true;
        }
        assert(h@[i + j] != n@[j as int]);
        assert(!matches_at(h@, n@, i as int)) by {
            if matches_at(h@, n@, i as int) {
                assert(h@.subrange(i as int, i + n@.len())[j as int] == n@[j as int]);
            }
        }
        i += 1;
    }
    assert(forall|k: int| 0 <= k ==> !matches_at(h@, n@, k));
    false
}

/// The sequence with every comma removed.
pub open spec fn strip_commas(s: Seq<u8>) -> Seq<u8>
    decreases s.len(),
{
    if s.len() == 0 {
        s
    } else {
        let r = strip_commas(s.drop_last());
        if s.last() == 44 {
            r
        } else {
            r.push(s.last())
        }
    }
}

/// Index of the first ASCII dot, or the length when there is none.
pub open spec fn dot_pos(t: Seq<u8>) -> int
    decreases t.len(),
{
    if t.len() == 0 {
        0
    } else if t[0] == 46 {
        0
    } else {
        1 + dot_pos(t.drop_first())
    }
}

pub open spec fn all_digits(t: Seq<u8>) -> bool {
    forall|i: int| 0 <= i < t.len() ==> is_digit(t[i])
}

/// Value of a digit string read in base ten.
pub open spec fn digits_val(t: Seq<u8>) -> nat
    decreases t.len(),
{
    if t.len() == 0 {
        0
    } else {
        digits_val(t.drop_last()) * 10 + (t.last() - 48) as nat
    }
}

pub open spec fn pow10(n: nat) -> nat
    decreases n,
{
    if n == 0 {
        1
    } else {
        10 * pow10((n - 1) as nat)
    }
}

/// A digit string of `n` digits is worth less than `10^n`.
pub proof fn lemma_digits_val_bound(t: Seq<u8>)
    requires
        all_digits(t),
    ensures
        digits_val(t) < pow10(t.len()),
    decreases t.len(),
{
    if t.len() > 0 {
        assert(all_digits(t.drop_last()));
        lemma_digits_val_bound(t.drop_last());
        assert(t.last() - 48 <= 9);
    }
}

/// The milli-value of a fractional part: the first three digits after the
/// dot, padded with zeros on the right; further digits are truncated.
pub open spec fn frac_milli(f: Seq<u8>) -> nat {
    if f.len() >= 3 {
        digits_val(f.take(3))
    } else if f.len() == 2 {
        digits_val(f) * 10
    } else if f.len() == 1 {
        digits_val(f) * 100
    } else {
        0
    }
}

/// Value in milli-units of a numeral: commas are stripped, then the string
/// must be one to twelve digits, optionally followed by a dot and further
/// digits; the fraction is kept to milli precision.  Anything else has no
/// value.
pub open spec fn scaled_milli_of(s: Seq<u8>) -> Option<u64> {
    let t = strip_commas(s);
    let p = dot_pos(t);
    let ip = t.take(p);
    if ip.len() < 1 || ip.len() > 12 || !all_digits(ip) {
        None
    } else if p == t.len() {
        Some((digits_val(ip) * 1000) as u64)
    } else {
        let fr = t.skip(p + 1);
        if !all_digits(fr) {
            None
        } else {
            Some((digits_val(ip) * 1000 + frac_milli(fr)) as u64)
        }
    }
}

/// Powers of ten grow with the exponent.
proof fn lemma_pow10_le(a: nat, b: nat)
    requires
        a <= b,
    ensures
        pow10(a) <= pow10(b),
    decreases b,
{
    if a < b {
        lemma_pow10_le(a, (b - 1) as nat);
        assert(pow10(b) == 10 * pow10((b - 1) as nat));
    }
}

/// Parses a numeral with optional comma grouping and decimal fraction into
/// milli-units.
#[verifier::loop_isolation(false)]
pub fn parse_scaled(s: &[u8]) -> (r: Option<u64>)
    ensures
        r == scaled_milli_of(s@),
{
    // Strip the commas.
    let mut t: Vec<u8> = Vec::new();
    let mut i: usize = 0;
    while i < s.len()
        invariant
            i <= s@.len(),
            t@ == strip_commas(s@.take(i as int)),
            t@.len() <= i,
        decreases s@.len() - i,
    {
        assert(s@.take(i + 1).drop_last() =~= s@.take(i as int));
        if s[i] != 44 {
            t.push(s[i]);
        }
        i += 1;
    }
    assert(s@.take(s@.len() as int) =~= s@);
    let ghost tg = strip_commas(s@);
    assert(t@ == tg);

    // Locate the dot.
    let mut p: usize = 0;
    while p < t.len() && t[p] != 46
        invariant
            p <= t@.len(),
            forall|k: int| 0 <= k < p ==> t@[k] != 46,
        decreases t@.len() - p,
    {
        p += 1;
    }
    proof {
        lemma_dot_pos_found(t@, p as int);
    }
    assert(dot_pos(tg) == p);

    // Check and evaluate the integer part.
    if p < 1 || p > MAX_UNIT_DIGITS {
        return None;
    }
    let ghost ip = tg.take(p as int);
    let mut val: u64 = 0;
    let mut j: usize = 0;
    while j < p
        invariant
            j <= p,
            1 <= p <= 12,
            p <= t@.len(),
            ip == t@.take(p as int),
            forall|k: int| 0 <= k < j ==> is_digit(t@[k]),
            all_digits(ip.take(j as int)),
            val == digits_val(ip.take(j as int)),
            val < pow10(j as nat),
        decreases p - j,
    {
        let b = t[j];
        if b < 48 || b > 57 {
            assert(ip[j as int] == t@[j as int]);
            assert(!is_digit(ip[j as int]));
            return None;
        }
        proof {
            assert(ip.take(j + 1).drop_last() =~= ip.take(j as int));
            assert(ip.take(j + 1).last() == t@[j as int]);
            lemma_digits_val_bound(ip.take(j + 1));
            lemma_pow10_le((j + 1) as nat, 12);
            assert(pow10(12) == 1000000000000) by {
                reveal_with_fuel(pow10, 13);
            }
        }
        val = val * 10 + (b - 48) as u64;
        j += 1;
    }
    assert(ip.take(p as int) =~= ip);
    assert(val == digits_val(ip) && all_digits(ip));
    proof {
        lemma_digits_val_bound(ip);
        lemma_pow10_le(p as nat, 12);
        assert(pow10(12) == 1000000000000) by {
            reveal_with_fuel(pow10, 13);
        }
    }

    if p == t.len() {
        return Some(val * 1000);
    }

    // Check and evaluate the fractional part.
    let ghost fr = tg.skip(p + 1);
    let mut k: usize = p + 1;
    while k < t.len()
        invariant
            p + 1 <= k <= t@.len(),
            fr == t@.skip(p + 1),
            forall|m: int| p + 1 <= m < k ==> is_digit(t@[m]),
        decreases t@.len() - k,
    {
        let b = t[k];
        if b < 48 || b > 57 {
            assert(fr[k - p - 1] == t@[k as int]);
            assert(!all_digits(fr));
            return None;
        }
        k += 1;
    }
    assert(forall|m: int| 0 <= m < fr.len() ==> fr[m] == t@[m + p + 1]);
    assert(all_digits(fr));

    // Milli value of the fraction: first three digits, zero-padded.
    let flen = t.len() - (p + 1);
    let fval: u64 = if flen >= 3 {
        assert(fr.take(3).drop_last() =~= fr.take(2));
        assert(fr.take(2).drop_last() =~= fr.take(1));
        assert(fr.take(1).drop_last() =~= fr.take(0));
        assert(fr.take(0) =~= Seq::<u8>::empty());
        let v = (t[p + 1] - 48) as u64 * 100 + (t[p + 2] - 48) as u64 * 10 + (t[p + 3] - 48)
            as u64;
        assert(v == frac_milli(fr) && v <= 999) by {
            reveal_with_fuel(digits_val, 4);
        }
        v
    } else if flen == 2 {
        assert(fr.drop_last() =~= fr.take(1));
        assert(fr.take(1).drop_last() =~= fr.take(0));
        assert(fr.take(0) =~= Seq::<u8>::empty());
        let v = ((t[p + 1] - 48) as u64 * 10 + (t[p + 2] - 48) as u64) * 10;
        assert(v == frac_milli(fr) && v <= 999) by {
            reveal_with_fuel(digits_val, 3);
        }
        v
    } else if flen == 1 {
        assert(fr.drop_last() =~= Seq::<u8>::empty());
        let v = (t[p + 1] - 48) as u64 * 100;
        assert(v == frac_milli(fr) && v <= 999) by {
            reveal_with_fuel(digits_val, 2);
        }
        v
    } else {
        0
    };
    assert(fval == frac_milli(fr) && fval <= 999);
    Some(val * 1000 + fval)
}

/// Relates the first scan position that holds a dot (or the end of the
/// sequence) to `dot_pos`.
proof fn lemma_dot_pos_found(t: Seq<u8>, p: int)
    requires
        0 <= p <= t.len(),
        forall|k: int| 0 <= k < p ==> t[k] != 46,
        p < t.len() ==> t[p] == 46,
    ensures
        dot_pos(t) == p,
    decreases p,
{
    if p > 0 {
        assert(t[0] != 46);
        assert(t.drop_first().len() == t.len() - 1);
        assert(forall|k: int| 0 <= k < p - 1 ==> t.drop_first()[k] == t[k + 1]);
        assert(p - 1 < t.drop_first().len() ==> t.drop_first()[p - 1] == t[p as int]);
        lemma_dot_pos_found(t.drop_first(), p - 1);
    } else {
        if t.len() > 0 {
            assert(t[0] == 46);
        }
    }
}

/// One step of whitespace splitting: the remaining input, the token being
/// built, and the tokens already finished.
pub open spec fn split_ws_rec(s: Seq<u8>, cur: Seq<u8>, acc: Seq<Seq<u8>>) -> Seq<Seq<u8>>
    decreases s.len(),
{
    if s.len() == 0 {
        if cur.len() == 0 {
            acc
        } else {
            acc.push(cur)
        }
    } else if is_ws(s[0]) {
        if cur.len() == 0 {
            split_ws_rec(s.drop_first(), cur, acc)
        } else {
            split_ws_rec(s.drop_first(), Seq::empty(), acc.push(cur))
        }
    } else {
        split_ws_rec(s.drop_first(), cur.push(s[0]), acc)
    }
}

/// The whitespace-separated tokens of a byte string, in order.
pub open spec fn tokens(s: Seq<u8>) -> Seq<Seq<u8>> {
    split_ws_rec(s, Seq::empty(), Seq::empty())
}

/// Splits a byte string into its whitespace-separated tokens.
#[verifier::loop_isolation(false)]
pub fn split_tokens(s: &[u8]) -> (r: Vec<Vec<u8>>)
    ensures
        r.deep_view() == tokens(s@),
{
    let mut acc: Vec<Vec<u8>> = Vec::new();
    let mut cur: Vec<u8> = Vec::new();
    let mut i: usize = 0;
    assert(acc.deep_view() =~= Seq::<Seq<u8>>::empty());
    assert(cur@ =~= Seq::<u8>::empty());
    assert(s@.skip(0) =~= s@);
    while i < s.len()
        invariant
            i <= s@.len(),
            tokens(s@) == split_ws_rec(s@.skip(i as int), cur@, acc.deep_view()),
        decreases s@.len() - i,
    {
        let ghost pre = s@.skip(i as int);
        let ghost acc0 = acc.deep_view();
        let ghost cur0 = cur@;
        assert(pre.drop_first() =~= s@.skip(i + 1));
        assert(pre[0] == s@[i as int]);
        let b = s[i];
        if b == 32 || b == 9 || b == 10 || b == 11 || b == 12 || b == 13 {
            if cur.len() > 0 {
                acc.push(cur);
                cur = Vec::new();
                assert(acc.deep_view() =~~= acc0.push(cur0));
                assert(cur@ =~= Seq::<u8>::empty());
            }
        } else {
            cur.push(b);
        }
        i += 1;
    }
    assert(s@.skip(s@.len() as int) =~= Seq::<u8>::empty());
    let ghost accn = acc.deep_view();
    let ghost curn = cur@;
    if cur.len() > 0 {
        acc.push(cur);
        assert(acc.deep_view() =~~= accn.push(curn));
    }
    acc
}

/// Value of a plain unsigned numeral: one to twelve digits, nothing else.
pub open spec fn plain_u64_of(s: Seq<u8>) -> Option<u64> {
    if 1 <= s.len() <= 12 && all_digits(s) {
        Some(digits_val(s) as u64)
    } else {
        None
    }
}

/// Parses a plain unsigned numeral (an identifier field).
#[verifier::loop_isolation(false)]
pub fn parse_plain_u64(s: &[u8]) -> (r: Option<u64>)
    ensures
        r == plain_u64_of(s@),
{
    if s.len() < 1 || s.len() > MAX_UNIT_DIGITS {
        return None;
    }
    let mut val: u64 = 0;
    let mut j: usize = 0;
    while j < s.len()
        invariant
            j <= s@.len(),
            1 <= s@.len() <= 12,
            all_digits(s@.take(j as int)),
            val == digits_val(s@.take(j as int)),
            val < pow10(j as nat),
        decreases s@.len() - j,
    {
        let b = s[j];
        if b < 48 || b > 57 {
            assert(!is_digit(s@[j as int]));
            return None;
        }
        proof {
            assert(s@.take(j + 1).drop_last() =~= s@.take(j as int));
            lemma_digits_val_bound(s@.take(j + 1));
            lemma_pow10_le((j + 1) as nat, 12);
            assert(pow10(12) == 1000000000000) by {
                reveal_with_fuel(pow10, 13);
            }
        }
        val = val * 10 + (b - 48) as u64;
        j += 1;
    }
    assert(s@.take(s@.len() as int) =~= s@);
    Some(val)
}

} // verus!
