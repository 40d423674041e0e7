//! Fixed-width decimal numerals over ASCII bytes, and byte-wise order.
use vstd::prelude::*;

use core::cmp::Ordering;
use vstd::arithmetic::div_mod::lemma_mod_breakdown;

verus! {

/// `10` raised to the power `k`.
pub open spec fn pow10(k: nat) -> nat
    decreases k,
{
    if k == 0 {
        1
    } else {
        10 * pow10((k - 1) as nat)
    }
}

/// The ASCII digit for `d`, which is below ten.
pub open spec fn digit_byte(d: nat) -> u8 {
    (d + 48) as u8
}

/// Whether `c` is an ASCII decimal digit.
pub open spec fn is_digit(c: u8) -> bool {
    48 <= c <= 57
}

/// Whether every byte of `s` is an ASCII decimal digit.
pub open spec fn all_digits(s: Seq<u8>) -> bool {
    forall|i: int| 0 <= i < s.len() ==> is_digit(#[trigger] s[i])
}

/// The value of the digits `s`, most significant first (`acc * 10 + digit`).
pub open spec fn digits_value(s: Seq<u8>) -> nat
    decreases s.len(),
{
    if s.len() == 0 {
        0
    } else {
        digits_value(s.drop_last()) * 10 + (s.last() - 48) as nat
    }
}

/// The last `width` decimal digits of `n`, padded on the left with zeros.
pub open spec fn zero_padded(n: nat, width: nat) -> Seq<u8>
    decreases width,
{
    if width == 0 {
        seq![]
    } else {
        zero_padded(n / 10, (width - 1) as nat).push(digit_byte(n % 10))
    }
}

/// What an unsigned decimal integer reads from `s`: an optional `+`, then
/// one digit or more and nothing else.
pub open spec fn unsigned_decimal(s: Seq<u8>) -> Option<nat> {
    let d = if s.len() > 0 && s[0] == 43u8 {
        s.drop_first()
    } else {
        s
    };
    if d.len() > 0 && all_digits(d) {
        Some(digits_value(d))
    } else {
        None
    }
}

pub proof fn lemma_zero_padded_len(n: nat, width: nat)
    ensures
        zero_padded(n, width).len() == width,
    decreases width,
{
    if width > 0 {
        lemma_zero_padded_len(n / 10, (width - 1) as nat);
    }
}

/// A zero-padded numeral is made of digits only.
pub proof fn lemma_zero_padded_digits(n: nat, width: nat)
    ensures
        all_digits(zero_padded(n, width)),
    decreases width,
{
    if width > 0 {
        lemma_zero_padded_digits(n / 10, (width - 1) as nat);
    }
}

/// Reading a zero-padded numeral gives back the number, up to its width.
pub proof fn lemma_zero_padded_value(n: nat, width: nat)
    ensures
        digits_value(zero_padded(n, width)) == n % pow10(width),
    decreases width,
{
    if width > 0 {
        let w1 = (width - 1) as nat;
        lemma_zero_padded_value(n / 10, w1);
        let s = zero_padded(n, width);
        assert(s.drop_last() =~= zero_padded(n / 10, w1));
        assert(pow10(w1) > 0) by {
            lemma_pow10_positive(w1);
        }
        lemma_mod_breakdown(n as int, 10, pow10(w1) as int);
    }
}

pub proof fn lemma_pow10_positive(k: nat)
    ensures
        pow10(k) > 0,
    decreases k,
{
    if k > 0 {
        lemma_pow10_positive((k - 1) as nat);
    }
}

/// The numeral of a number below `10^6` in six digits reads back as it.
pub proof fn lemma_six_digits_round_trip(n: nat)
    requires
        n < 1_000_000,
    ensures
        zero_padded(n, 6).len() == 6,
        all_digits(zero_padded(n, 6)),
        digits_value(zero_padded(n, 6)) == n,
        unsigned_decimal(zero_padded(n, 6)) == Some(n),
{
    lemma_zero_padded_len(n, 6);
    lemma_zero_padded_digits(n, 6);
    lemma_zero_padded_value(n, 6);
    assert(pow10(6) == 1_000_000) by {
        reveal_with_fuel(pow10, 7);
    }
    assert(zero_padded(n, 6)[0] != 43u8);
}

/// Digits are worth less than ten raised to their count.
pub proof fn lemma_digits_value_bound(s: Seq<u8>)
    requires
        all_digits(s),
    ensures
        digits_value(s) < pow10(s.len()),
    decreases s.len(),
{
    if s.len() > 0 {
        assert(all_digits(s.drop_last()));
        lemma_digits_value_bound(s.drop_last());
    }
}

/// How `x` compares with `y`.
pub open spec fn int_cmp(x: int, y: int) -> Ordering {
    if x < y {
        Ordering::Less
    } else if x == y {
        Ordering::Equal
    } else {
        Ordering::Greater
    }
}

/// How `a` compares with `b` byte by byte, a proper prefix coming first.
pub open spec fn lex_cmp(a: Seq<u8>, b: Seq<u8>) -> Ordering
    decreases a.len(),
{
    if a.len() == 0 {
        if b.len() == 0 {
            Ordering::Equal
        } else {
            Ordering::Less
        }
    } else if b.len() == 0 {
        Ordering::Greater
    } else if a[0] != b[0] {
        int_cmp(a[0] as int, b[0] as int)
    } else {
        lex_cmp(a.drop_first(), b.drop_first())
    }
}

/// Sequences of one length compare as equal only when they are equal.
pub proof fn lemma_lex_cmp_equal(a: Seq<u8>, b: Seq<u8>)
    ensures
        lex_cmp(a, b) == Ordering::Equal <==> a == b,
    decreases a.len(),
{
    if a.len() > 0 && b.len() > 0 && a[0] == b[0] {
        lemma_lex_cmp_equal(a.drop_first(), b.drop_first());
        assert(lex_cmp(a, b) == lex_cmp(a.drop_first(), b.drop_first()));
        assert(a =~= seq![a[0]] + a.drop_first());
        assert(b =~= seq![b[0]] + b.drop_first());
        if a == b {
            assert(a.drop_first() == b.drop_first());
        }
    } else if a.len() > 0 && b.len() > 0 {
        assert(a[0] != b[0]);
        assert(a != b);
    } else if a.len() != b.len() {
        assert(a.len() != b.len());
    } else {
        assert(a =~= b);
    }
}

/// Of two sequences of one length, each with a byte added at the end, the
/// first difference decides.
pub proof fn lemma_lex_cmp_push(a: Seq<u8>, b: Seq<u8>, x: u8, y: u8)
    requires
        a.len() == b.len(),
    ensures
        lex_cmp(a.push(x), b.push(y)) == if a == b {
            int_cmp(x as int, y as int)
        } else {
            lex_cmp(a, b)
        },
    decreases a.len(),
{
    let ax = a.push(x);
    let by = b.push(y);
    if a.len() == 0 {
        assert(a =~= b);
        assert(ax[0] == x);
        assert(by[0] == y);
        assert(ax.drop_first() =~= Seq::<u8>::empty());
        assert(by.drop_first() =~= Seq::<u8>::empty());
        assert(lex_cmp(Seq::<u8>::empty(), Seq::<u8>::empty()) == Ordering::Equal);
    } else {
        assert(ax.drop_first() =~= a.drop_first().push(x));
        assert(by.drop_first() =~= b.drop_first().push(y));
        lemma_lex_cmp_push(a.drop_first(), b.drop_first(), x, y);
        assert(ax[0] == a[0]);
        assert(by[0] == b[0]);
        if a[0] == b[0] {
            assert(lex_cmp(ax, by) == lex_cmp(a.drop_first().push(x), b.drop_first().push(y)));
            assert(lex_cmp(a, b) == lex_cmp(a.drop_first(), b.drop_first()));
            assert(a =~= seq![a[0]] + a.drop_first());
            assert(b =~= seq![b[0]] + b.drop_first());
            if a == b {
                assert(a.drop_first() == b.drop_first());
            }
        } else {
            assert(a != b);
        }
    }
}

/// Numerals of one width compare byte by byte as their values compare.
pub proof fn lemma_lex_cmp_numerals(a: Seq<u8>, b: Seq<u8>)
    requires
        a.len() == b.len(),
        all_digits(a),
        all_digits(b),
    ensures
        lex_cmp(a, b) == int_cmp(digits_value(a) as int, digits_value(b) as int),
    decreases a.len(),
{
    if a.len() == 0 {
    } else {
        let a1 = a.drop_last();
        let b1 = b.drop_last();
        assert(all_digits(a1));
        assert(all_digits(b1));
        assert(is_digit(a.last()));
        assert(is_digit(b.last()));
        lemma_lex_cmp_numerals(a1, b1);
        assert(a =~= a1.push(a.last()));
        assert(b =~= b1.push(b.last()));
        lemma_lex_cmp_push(a1, b1, a.last(), b.last());
        lemma_lex_cmp_equal(a1, b1);
        let va = digits_value(a1) as int;
        let vb = digits_value(b1) as int;
        let da = (a.last() - 48) as int;
        let db = (b.last() - 48) as int;
        assert(0 <= da <= 9 && 0 <= db <= 9);
        if va < vb {
            assert(va * 10 + da < vb * 10 + db) by (nonlinear_arith)
                requires
                    va < vb,
                    0 <= da <= 9,
                    0 <= db <= 9,
            ;
        } else if va > vb {
            assert(va * 10 + da > vb * 10 + db) by (nonlinear_arith)
                requires
                    va > vb,
                    0 <= da <= 9,
                    0 <= db <= 9,
            ;
        }
    }
}

/// Compares `a` with `b` byte by byte, a proper prefix coming first.
pub fn compare_bytes(a: &[u8], b: &[u8]) -> (r: Ordering)
    ensures
        r == lex_cmp(a@, b@),
{
    let mut i: usize = 0;
    assert(a@.subrange(0, a@.len() as int) =~= a@);
    assert(b@.subrange(0, b@.len() as int) =~= b@);
    while i < a.len() && i < b.len()
        invariant
            i <= a@.len(),
            i <= b@.len(),
            lex_cmp(a@, b@) == lex_cmp(
                a@.subrange(i as int, a@.len() as int),
                b@.subrange(i as int, b@.len() as int),
            ),
        decreases a@.len() - i,
    {
        let ghost ra = a@.subrange(i as int, a@.len() as int);
        let ghost rb = b@.subrange(i as int, b@.len() as int);
        assert(ra[0] == a@[i as int]);
        assert(rb[0] == b@[i as int]);
        if a[i] < b[i] {
            return Ordering::Less;
        }
        if a[i] > b[i] {
            return Ordering::Greater;
        }
        assert(ra.drop_first() =~= a@.subrange(i + 1, a@.len() as int));
        assert(rb.drop_first() =~= b@.subrange(i + 1, b@.len() as int));
        i = i + 1;
    }
    if a.len() == b.len() {
        Ordering::Equal
    } else if i == a.len() {
        Ordering::Less
    } else {
        Ordering::Greater
    }
}

/// Writes the last `width` digits of `n`, zero-padded, into
/// `buf[start..start + width]`, leaving the other bytes as they were.
pub fn write_zero_padded<const N: usize>(buf: &mut [u8; N], start: usize, n: u32, width: usize)
    requires
        start + width <= N,
    ensures
        final(buf)@.len() == N,
        final(buf)@.subrange(start as int, start + width) == zero_padded(n as nat, width as nat),
        forall|i: int|
            0 <= i < N && !(start <= i < start + width) ==> #[trigger] final(buf)@[i]
                == old(buf)@[i],
    decreases width,
{
    if width > 0 {
        write_zero_padded(buf, start, n / 10, width - 1);
        buf[start + width - 1] = (n % 10) as u8 + 48;
        assert(buf@.subrange(start as int, start + width) =~= zero_padded(
            (n / 10) as nat,
            (width - 1) as nat,
        ).push(digit_byte((n % 10) as nat)));
    } else {
        assert(buf@.subrange(start as int, start as int) =~= Seq::<u8>::empty());
    }
}

/// Whether `b[start..end]` holds digits only.
pub fn are_digits(b: &[u8], start: usize, end: usize) -> (r: bool)
    requires
        start <= end <= b@.len(),
    ensures
        r == all_digits(b@.subrange(start as int, end as int)),
{
    let mut i: usize = start;
    while i < end
        invariant
            start <= i <= end <= b@.len(),
            all_digits(b@.subrange(start as int, i as int)),
        decreases end - i,
    {
        if b[i] < 48 || b[i] > 57 {
            assert(!is_digit(b@.subrange(start as int, end as int)[i - start]));
            return false;
        }
        assert(b@.subrange(start as int, i + 1) =~= b@.subrange(start as int, i as int).push(b[i as int]));
        i = i + 1;
    }
    true
}

/// The value of the digits `b[start..end]`, most significant first.
pub fn digits_value_of(b: &[u8], start: usize, end: usize) -> (r: u32)
    requires
        start <= end <= b@.len(),
        end - start <= 9,
        all_digits(b@.subrange(start as int, end as int)),
    ensures
        r == digits_value(b@.subrange(start as int, end as int)),
{
    let mut acc: u32 = 0;
    let mut i: usize = start;
    assert(pow10(9) == 1_000_000_000) by {
        reveal_with_fuel(pow10, 10);
    }
    while i < end
        invariant
            start <= i <= end <= b@.len(),
            end - start <= 9,
            all_digits(b@.subrange(start as int, end as int)),
            pow10(9) == 1_000_000_000,
            acc == digits_value(b@.subrange(start as int, i as int)),
        decreases end - i,
    {
        let ghost prefix = b@.subrange(start as int, i as int);
        let ghost next = b@.subrange(start as int, i + 1);
        assert(next.drop_last() =~= prefix);
        assert(is_digit(b@.subrange(start as int, end as int)[i - start]));
        assert(all_digits(next)) by {
            assert forall|j: int| 0 <= j < next.len() implies is_digit(#[trigger] next[j]) by {
                assert(next[j] == b@.subrange(start as int, end as int)[j]);
            }
        }
        proof {
            lemma_digits_value_bound(next);
            lemma_pow10_monotone(next.len(), 9);
        }
        acc = acc * 10 + (b[i] - 48) as u32;
        i = i + 1;
    }
    acc
}

/// Reads `b[start..end]` as an unsigned decimal integer: an optional `+`,
/// then one digit or more.
pub fn parse_decimal(b: &[u8], start: usize, end: usize) -> (r: Option<u32>)
    requires
        start <= end <= b@.len(),
        end - start <= 9,
    ensures
        r is Some <==> unsigned_decimal(b@.subrange(start as int, end as int)) is Some,
        r matches Some(v) ==> unsigned_decimal(b@.subrange(start as int, end as int)) == Some(
            v as nat,
        ) && v < pow10((end - start) as nat),
{
    let ghost s = b@.subrange(start as int, end as int);
    let mut first: usize = start;
    if start < end && b[start] == '+' as u8 {
        first = start + 1;
    }
    assert(b@.subrange(first as int, end as int) =~= (if s.len() > 0 && s[0] == 43u8 {
        s.drop_first()
    } else {
        s
    }));
    if first < end && are_digits(b, first, end) {
        let v = digits_value_of(b, first, end);
        proof {
            lemma_digits_value_bound(b@.subrange(first as int, end as int));
            lemma_pow10_monotone((end - first) as nat, (end - start) as nat);
        }
        Some(v)
    } else {
        None
    }
}

pub proof fn lemma_pow10_monotone(j: nat, k: nat)
    requires
        j <= k,
    ensures
        pow10(j) <= pow10(k),
    decreases k,
{
    if j < k {
        lemma_pow10_monotone(j, (k - 1) as nat);
    }
}

} // verus!
