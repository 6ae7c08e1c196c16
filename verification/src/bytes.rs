//! Byte-level utilities shared by the token codec and the stores: a
//! constant-time equality check, a canonical decimal codec for `u64`, and a
//! first-occurrence search.

use vstd::prelude::*;
use vstd::arithmetic::div_mod::lemma_fundamental_div_mod;

verus! {

/// ASCII `'0'`.
pub const DIGIT_ZERO: u8 = 48;

pub open spec fn is_digit(b: u8) -> bool {
    48 <= b <= 57
}

/// Equality of two byte strings, computed without an early exit on the first
/// differing byte, so that the time taken does not reveal how long a common
/// prefix the two share. Only the lengths are compared directly.
pub fn ct_bytes_eq(a: &[u8], b: &[u8]) -> (r: bool)
    ensures
        r == (a@ == b@),
{
    if a.len() != b.len() {
        assert(a@ != b@);
        return false;
    }
    let n = a.len();
    let mut diff: u8 = 0;
    let mut i: usize = 0;
    while i < n
        invariant
            n == a@.len(),
            n == b@.len(),
            i <= n,
            (diff == 0) <==> (forall|j: int| 0 <= j < i ==> a@[j] == b@[j]),
        decreases n - i,
    {
        let x = a[i];
        let y = b[i];
        let d = x ^ y;
        proof {
            assert(((x ^ y) == 0) == (x == y)) by (bit_vector);
            assert forall|p: u8, q: u8| ((p | q) == 0) == (p == 0 && q == 0) by {
                assert(((p | q) == 0) == (p == 0 && q == 0)) by (bit_vector);
            }
        }
        diff = diff | d;
        i = i + 1;
    }
    if diff == 0 {
        assert(a@ =~= b@);
        true
    } else {
        assert(a@ != b@);
        false
    }
}

/// The canonical decimal rendering of a non-negative integer: no sign, no
/// leading zero except in `"0"` itself.
pub open spec fn dec_digits(n: nat) -> Seq<u8>
    decreases n,
{
    if n < 10 {
        seq![(48 + n) as u8]
    } else {
        dec_digits(n / 10) + seq![(48 + n % 10) as u8]
    }
}

/// The integer a digit string denotes, most significant digit first.
pub open spec fn dec_val(s: Seq<u8>) -> int
    decreases s.len(),
{
    if s.len() == 0 {
        0
    } else {
        dec_val(s.drop_last()) * 10 + s.last() - 48
    }
}

/// A canonical decimal string: non-empty, digits only, and no leading zero
/// unless the string is exactly `"0"`.
pub open spec fn valid_dec(s: Seq<u8>) -> bool {
    &&& s.len() > 0
    &&& forall|i: int| 0 <= i < s.len() ==> is_digit(#[trigger] s[i])
    &&& (s[0] != DIGIT_ZERO || s.len() == 1)
}

/// What `parse_dec` returns: the denoted value, when the string is canonical
/// and the value fits in a `u64`.
pub open spec fn spec_parse_dec(s: Seq<u8>) -> Option<u64> {
    if valid_dec(s) && dec_val(s) <= u64::MAX {
        Some(dec_val(s) as u64)
    } else {
        None
    }
}

/// The rendering of `n` is canonical, denotes `n`, and starts with a non-zero
/// digit whenever `n >= 1`.
pub proof fn lemma_dec_digits_valid(n: nat)
    ensures
        valid_dec(dec_digits(n)),
        dec_val(dec_digits(n)) == n,
        n >= 1 ==> dec_digits(n)[0] != DIGIT_ZERO,
    decreases n,
{
    if n < 10 {
        let s = seq![(48 + n) as u8];
        assert(dec_digits(n) == s);
        assert(s.drop_last() =~= Seq::<u8>::empty());
        assert(dec_val(s.drop_last()) == 0);
        assert(dec_val(s) == s.last() - 48);
    } else {
        lemma_dec_digits_valid(n / 10);
        let a = dec_digits(n / 10);
        let d = (48 + n % 10) as u8;
        assert(dec_digits(n) == a + seq![d]);
        assert((a + seq![d]).drop_last() =~= a);
        assert((a + seq![d]).last() == d);
        assert(dec_val(dec_digits(n)) == dec_val(a) * 10 + n % 10);
        lemma_fundamental_div_mod(n as int, 10);
        assert(dec_digits(n)[0] == a[0]);
        assert(n / 10 >= 1);
    }
}

/// Every canonical digit string denotes a non-negative value, and each proper
/// prefix denotes no more than the whole.
pub proof fn lemma_dec_val_bounds(s: Seq<u8>)
    requires
        forall|i: int| 0 <= i < s.len() ==> is_digit(#[trigger] s[i]),
    ensures
        dec_val(s) >= 0,
        forall|i: int| 0 <= i <= s.len() ==> #[trigger] dec_val(s.take(i)) <= dec_val(s),
    decreases s.len(),
{
    if s.len() == 0 {
        assert forall|i: int| 0 <= i <= s.len() implies #[trigger] dec_val(s.take(i)) <= dec_val(s) by {
            assert(s.take(i) =~= s);
        }
    } else {
        let t = s.drop_last();
        lemma_dec_val_bounds(t);
        assert(dec_val(s) == dec_val(t) * 10 + s.last() - 48);
        assert(dec_val(t) * 10 >= dec_val(t)) by (nonlinear_arith)
            requires dec_val(t) >= 0;
        assert forall|i: int| 0 <= i <= s.len() implies #[trigger] dec_val(s.take(i)) <= dec_val(s) by {
            if i == s.len() {
                assert(s.take(i) =~= s);
            } else {
                assert(s.take(i) =~= t.take(i));
            }
        }
    }
}

pub open spec fn pow10(k: nat) -> nat
    decreases k,
{
    if k == 0 {
        1
    } else {
        10 * pow10((k - 1) as nat)
    }
}

/// A value below `pow10(k)` renders in at most `k` digits.
pub proof fn lemma_dec_digits_len(n: nat, k: nat)
    requires
        k >= 1,
        n < pow10(k),
    ensures
        dec_digits(n).len() <= k,
    decreases k,
{
    if n < 10 {
    } else {
        assert(pow10(k) == 10 * pow10((k - 1) as nat));
        if k == 1 {
            assert(pow10(0) == 1);
            assert(false);
        }
        assert(n / 10 < pow10((k - 1) as nat)) by (nonlinear_arith)
            requires
                n < 10 * pow10((k - 1) as nat),
                n >= 10,
        ;
        lemma_dec_digits_len(n / 10, (k - 1) as nat);
    }
}

/// A `u64` renders in at most 20 digits.
pub proof fn lemma_dec_digits_len_u64(n: nat)
    requires
        n <= u64::MAX,
    ensures
        dec_digits(n).len() <= 20,
{
    reveal_with_fuel(pow10, 21);
    assert(pow10(20) == 100000000000000000000);
    lemma_dec_digits_len(n, 20);
}

/// Render `n` in canonical decimal.
pub fn u64_to_dec(n: u64) -> (r: Vec<u8>)
    ensures
        r@ == dec_digits(n as nat),
    decreases n,
{
    if n < 10 {
        let mut v: Vec<u8> = Vec::new();
        v.push(48 + n as u8);
        assert(v@ =~= dec_digits(n as nat));
        v
    } else {
        let mut v = u64_to_dec(n / 10);
        v.push((48 + n % 10) as u8);
        assert(v@ =~= dec_digits(n as nat));
        v
    }
}

/// Parse a canonical decimal string into a `u64`; `None` on anything else
/// (empty, a non-digit, a leading zero, or a value that does not fit).
pub fn parse_dec(s: &[u8]) -> (r: Option<u64>)
    ensures
        r == spec_parse_dec(s@),
{
    if s.len() == 0 {
        return None;
    }
    if s[0] == DIGIT_ZERO && s.len() > 1 {
        return None;
    }
    let n = s.len();
    let mut acc: u64 = 0;
    let mut i: usize = 0;
    while i < n
        invariant
            n == s@.len(),
            i <= n,
            forall|j: int| 0 <= j < i ==> is_digit(#[trigger] s@[j]),
            acc == dec_val(s@.take(i as int)),
        decreases n - i,
    {
        let d = s[i];
        if d < 48 || d > 57 {
            assert(!valid_dec(s@));
            return None;
        }
        let step = match acc.checked_mul(10) {
            Some(m) => m.checked_add((d - 48) as u64),
            None => None,
        };
        proof {
            assert(s@.take(i + 1).drop_last() =~= s@.take(i as int));
            assert(s@.take(i + 1).last() == s@[i as int]);
            assert(dec_val(s@.take(i + 1)) == acc * 10 + d - 48);
        }
        match step {
            Some(next) => {
                acc = next;
            }
            None => {
                proof {
                    if valid_dec(s@) {
                        lemma_dec_val_bounds(s@);
                        assert(dec_val(s@.take(i + 1)) <= dec_val(s@));
                    }
                }
                return None;
            }
        }
        i = i + 1;
    }
    proof {
        assert(s@.take(n as int) =~= s@);
        assert(valid_dec(s@));
    }
    Some(acc)
}

/// The index of the first occurrence of `b` in `s` at or after `from`, or -1
/// if there is none.
pub open spec fn spec_find(s: Seq<u8>, b: u8, from: int) -> int
    decreases s.len() - from,
{
    if from < 0 || from >= s.len() {
        -1
    } else if s[from] == b {
        from
    } else {
        spec_find(s, b, from + 1)
    }
}

/// What a successful or failed search says of the string.
pub proof fn lemma_find_props(s: Seq<u8>, b: u8, from: int)
    requires
        0 <= from,
    ensures
        spec_find(s, b, from) == -1 || spec_find(s, b, from) >= from,
        spec_find(s, b, from) == -1 ==> forall|j: int| from <= j < s.len() ==> s[j] != b,
        spec_find(s, b, from) >= 0 ==> {
            let k = spec_find(s, b, from);
            &&& from <= k < s.len()
            &&& s[k] == b
            &&& forall|j: int| from <= j < k ==> s[j] != b
        },
    decreases s.len() - from,
{
    if from < s.len() && s[from] != b {
        lemma_find_props(s, b, from + 1);
    }
}

/// A search from `from` finds the occurrence at `k` when no earlier position
/// in `[from, k)` holds `b`.
pub proof fn lemma_find_hits(s: Seq<u8>, b: u8, from: int, k: int)
    requires
        0 <= from <= k < s.len(),
        s[k] == b,
        forall|j: int| from <= j < k ==> s[j] != b,
    ensures
        spec_find(s, b, from) == k,
    decreases k - from,
{
    if from < k {
        lemma_find_hits(s, b, from + 1, k);
    }
}

/// Find the first occurrence of `b` in `s` at or after `from`.
pub fn find_byte(s: &[u8], b: u8, from: usize) -> (r: Option<usize>)
    ensures
        match r {
            Some(k) => spec_find(s@, b, from as int) == k,
            None => spec_find(s@, b, from as int) == -1,
        },
{
    let n = s.len();
    if from >= n {
        return None;
    }
    let mut i: usize = from;
    while i < n
        invariant
            n == s@.len(),
            from <= i <= n,
            forall|j: int| from <= j < i ==> s@[j] != b,
        decreases n - i,
    {
        if s[i] == b {
            proof {
                lemma_find_hits(s@, b, from as int, i as int);
            }
            return Some(i);
        }
        i = i + 1;
    }
    proof {
        assert(i == n);
        lemma_find_props(s@, b, from as int);
        let k = spec_find(s@, b, from as int);
        if k >= 0 {
            assert(from <= k < s@.len());
            assert(s@[k] == b);
            assert(s@[k] != b);
        }
    }
    None
}

} // verus!
