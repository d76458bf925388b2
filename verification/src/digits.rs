//! Natural numbers as sequences of base-256 digits, least significant first.
//!
//! This module holds the arithmetic of [`crate::amount::Amount`] on bare digit
//! vectors: what a digit sequence stands for, the facts about that number, and
//! the digit-by-digit algorithms, each proved against plain arithmetic on
//! `nat`.

use vstd::prelude::*;

verus! {

/// The weight of the digit at position `n`: 256 to the power `n`.
pub open spec fn weight(n: nat) -> nat
    decreases n,
{
    if n == 0 {
        1
    } else {
        256 * weight((n - 1) as nat)
    }
}

/// The number that the digits `s` stand for, least significant digit first.
pub open spec fn value(s: Seq<u8>) -> nat
    decreases s.len(),
{
    if s.len() == 0 {
        0
    } else {
        value(s.drop_last()) + s.last() as nat * weight((s.len() - 1) as nat)
    }
}

/// The digit of `s` at position `i`; positions past the end hold zero.
pub open spec fn digit(s: Seq<u8>, i: nat) -> nat {
    if i < s.len() {
        s[i as int] as nat
    } else {
        0
    }
}

/// The number that the lowest `i` digits of `s` stand for.
pub open spec fn low(s: Seq<u8>, i: nat) -> nat {
    if i < s.len() {
        value(s.take(i as int))
    } else {
        value(s)
    }
}

/// No digit of weight is wasted: the most significant digit is not zero.
pub open spec fn canonical(s: Seq<u8>) -> bool {
    s.len() > 0 ==> s.last() != 0
}

/// The number that the bytes `s` stand for, most significant byte first.
pub open spec fn be_value(s: Seq<u8>) -> nat
    decreases s.len(),
{
    if s.len() == 0 {
        0
    } else {
        256 * be_value(s.drop_last()) + s.last() as nat
    }
}

pub proof fn lemma_weight_positive(n: nat)
    ensures
        weight(n) >= 1,
    decreases n,
{
    if n > 0 {
        lemma_weight_positive((n - 1) as nat);
    }
}

pub proof fn lemma_weight_add(a: nat, b: nat)
    ensures
        weight(a + b) == weight(a) * weight(b),
    decreases b,
{
    if b == 0 {
        assert(weight(a) * 1 == weight(a)) by (nonlinear_arith);
    } else {
        lemma_weight_add(a, (b - 1) as nat);
        let wa = weight(a);
        let wb = weight((b - 1) as nat);
        assert(weight(a + b) == 256 * weight((a + b - 1) as nat));
        assert(256 * (wa * wb) == wa * (256 * wb)) by (nonlinear_arith);
    }
}

pub proof fn lemma_weight_monotonic(a: nat, b: nat)
    requires
        a <= b,
    ensures
        weight(a) <= weight(b),
        a < b ==> 256 * weight(a) <= weight(b),
    decreases b,
{
    lemma_weight_positive(a);
    if a < b {
        lemma_weight_monotonic(a, (b - 1) as nat);
    }
}

/// The weight of position 16 is 2 to the power 128.
pub proof fn lemma_weight_16()
    ensures
        weight(8) == 0x1_0000_0000_0000_0000,
        weight(16) == 0x1_0000_0000_0000_0000_0000_0000_0000_0000,
{
    reveal_with_fuel(weight, 9);
    assert(weight(8) == 0x1_0000_0000_0000_0000);
    lemma_weight_add(8, 8);
    assert(0x1_0000_0000_0000_0000int * 0x1_0000_0000_0000_0000int
        == 0x1_0000_0000_0000_0000_0000_0000_0000_0000int) by (nonlinear_arith);
}

pub proof fn lemma_value_bound(s: Seq<u8>)
    ensures
        value(s) < weight(s.len()),
    decreases s.len(),
{
    if s.len() > 0 {
        lemma_value_bound(s.drop_last());
        let w = weight((s.len() - 1) as nat);
        let d = s.last() as nat;
        assert(d * w <= 255 * w) by (nonlinear_arith)
            requires
                d <= 255,
        ;
    }
}

pub proof fn lemma_value_floor(s: Seq<u8>)
    requires
        s.len() > 0,
        s.last() != 0,
    ensures
        value(s) >= weight((s.len() - 1) as nat),
{
    let w = weight((s.len() - 1) as nat);
    let d = s.last() as nat;
    assert(d * w >= w) by (nonlinear_arith)
        requires
            d >= 1,
    ;
}

pub proof fn lemma_value_push(s: Seq<u8>, d: u8)
    ensures
        value(s.push(d)) == value(s) + d as nat * weight(s.len()),
{
    assert(s.push(d).drop_last() =~= s);
}

pub proof fn lemma_value_single(d: u8)
    ensures
        value(seq![d]) == d as nat,
{
    assert(seq![d].drop_last() =~= Seq::<u8>::empty());
    assert(value(Seq::<u8>::empty()) == 0);
    assert(d as nat * 1 == d as nat) by (nonlinear_arith);
}

/// One more digit adds that digit at its weight.
pub proof fn lemma_low_step(s: Seq<u8>, i: nat)
    ensures
        low(s, i + 1) == low(s, i) + digit(s, i) * weight(i),
{
    if i < s.len() {
        let t = s.take(i as int + 1);
        assert(t.drop_last() =~= s.take(i as int));
        assert(t.last() == s[i as int]);
        if i + 1 == s.len() {
            assert(t =~= s);
        }
    } else {
        assert(0 * weight(i) == 0) by (nonlinear_arith);
    }
}

pub proof fn lemma_low_zero(s: Seq<u8>)
    ensures
        low(s, 0) == 0,
{
    if s.len() > 0 {
        assert(s.take(0).len() == 0);
    }
}

/// The lowest digit stands alone; the others stand for 256 times what they
/// are worth on their own.
pub proof fn lemma_value_front(s: Seq<u8>)
    requires
        s.len() > 0,
    ensures
        value(s) == s[0] as nat + 256 * value(s.skip(1)),
    decreases s.len(),
{
    if s.len() == 1 {
        assert(s =~= seq![s[0]]);
        lemma_value_single(s[0]);
        assert(s.skip(1).len() == 0);
    } else {
        let init = s.drop_last();
        lemma_value_front(init);
        assert(init.skip(1) =~= s.skip(1).drop_last());
        assert(s.skip(1).last() == s.last());
        let w = weight((s.len() - 2) as nat);
        let d = s.last() as nat;
        assert(weight((s.len() - 1) as nat) == 256 * w);
        assert(d * (256 * w) == 256 * (d * w)) by (nonlinear_arith);
    }
}

/// A digit put in front counts once; what was there counts 256 times.
pub proof fn lemma_value_insert_front(s: Seq<u8>, d: u8)
    ensures
        value(seq![d] + s) == d as nat + 256 * value(s),
{
    let t = seq![d] + s;
    lemma_value_front(t);
    assert(t.skip(1) =~= s);
}

/// Zeros in front multiply by the weight of their count.
pub proof fn lemma_value_shift(zeros: Seq<u8>, s: Seq<u8>)
    requires
        forall|i: int| 0 <= i < zeros.len() ==> zeros[i] == 0,
    ensures
        value(zeros + s) == weight(zeros.len()) * value(s),
    decreases zeros.len(),
{
    if zeros.len() == 0 {
        assert(zeros + s =~= s);
        assert(1 * value(s) == value(s)) by (nonlinear_arith);
    } else {
        let rest = zeros.skip(1);
        lemma_value_shift(rest, s);
        assert(zeros + s =~= seq![0u8] + (rest + s));
        lemma_value_insert_front(rest + s, 0u8);
        let w = weight(rest.len());
        let v = value(s);
        assert(256 * (w * v) == (256 * w) * v) by (nonlinear_arith);
    }
}

/// Where two digit sequences of one length differ, the most significant
/// difference decides which stands for the larger number.
pub proof fn lemma_value_order(s: Seq<u8>, t: Seq<u8>, k: int)
    requires
        s.len() == t.len(),
        0 <= k < s.len(),
        s[k] < t[k],
        forall|i: int| k < i < s.len() ==> s[i] == t[i],
    ensures
        value(s) < value(t),
    decreases s.len(),
{
    let n = (s.len() - 1) as nat;
    if k == n {
        lemma_value_bound(s.drop_last());
        let w = weight(n);
        let a = s.last() as nat;
        let b = t.last() as nat;
        assert(a * w + w <= b * w) by (nonlinear_arith)
            requires
                a + 1 <= b,
        ;
    } else {
        lemma_value_order(s.drop_last(), t.drop_last(), k);
    }
}

/// Among canonical digit sequences the longer one stands for the larger number.
pub proof fn lemma_longer_is_larger(s: Seq<u8>, t: Seq<u8>)
    requires
        canonical(t),
        s.len() < t.len(),
    ensures
        value(s) < value(t),
{
    lemma_value_bound(s);
    lemma_value_floor(t);
    lemma_weight_monotonic(s.len(), (t.len() - 1) as nat);
}

/// Bytes read from the other end stand for the same number.
pub proof fn lemma_be_value_reverse(s: Seq<u8>)
    ensures
        be_value(s) == value(s.reverse()),
    decreases s.len(),
{
    if s.len() == 0 {
        assert(s.reverse().len() == 0);
    } else {
        lemma_be_value_reverse(s.drop_last());
        assert(s.reverse() =~= seq![s.last()] + s.drop_last().reverse());
        lemma_value_insert_front(s.drop_last().reverse(), s.last());
    }
}

/// The digits of `digits` without the zeros at the most significant end.
pub(crate) fn trimmed(digits: Vec<u8>) -> (r: Vec<u8>)
    ensures
        canonical(r@),
        value(r@) == value(digits@),
        r@.len() <= digits@.len(),
{
    let mut r = digits;
    while r.len() > 0 && r[r.len() - 1] == 0
        invariant
            value(r@) == value(digits@),
            r@.len() <= digits@.len(),
        decreases r@.len(),
    {
        proof {
            assert(0 * weight((r@.len() - 1) as nat) == 0) by (nonlinear_arith);
        }
        r.pop();
    }
    r
}

/// The digits of the sum of two numbers.
pub(crate) fn sum(a: &Vec<u8>, b: &Vec<u8>) -> (r: Vec<u8>)
    ensures
        value(r@) == value(a@) + value(b@),
{
    let n = if a.len() >= b.len() {
        a.len()
    } else {
        b.len()
    };
    let mut r: Vec<u8> = Vec::new();
    let mut carry: u16 = 0;
    let mut i: usize = 0;
    proof {
        lemma_low_zero(a@);
        lemma_low_zero(b@);
    }
    while i < n
        invariant
            i <= n,
            n >= a@.len(),
            n >= b@.len(),
            r@.len() == i,
            carry <= 1,
            value(r@) + carry * weight(i as nat) == low(a@, i as nat) + low(b@, i as nat),
        decreases n - i,
    {
        let da: u16 = if i < a.len() {
            a[i] as u16
        } else {
            0
        };
        let db: u16 = if i < b.len() {
            b[i] as u16
        } else {
            0
        };
        let t: u16 = da + db + carry;
        let d: u8 = (t % 256) as u8;
        proof {
            lemma_low_step(a@, i as nat);
            lemma_low_step(b@, i as nat);
            lemma_value_push(r@, d);
            let w = weight(i as nat);
            assert(weight((i + 1) as nat) == 256 * w);
            assert(d * w + (t / 256) * (256 * w) == da * w + db * w + carry * w)
                by (nonlinear_arith)
                requires
                    t == da + db + carry,
                    t == 256 * (t / 256) + d,
            ;
        }
        r.push(d);
        carry = t / 256;
        i += 1;
    }
    if carry > 0 {
        proof {
            lemma_value_push(r@, carry as u8);
        }
        r.push(carry as u8);
    } else {
        proof {
            assert(0 * weight(i as nat) == 0) by (nonlinear_arith);
        }
    }
    r
}

/// The digits of the difference of two numbers, the second not above the
/// first.
pub(crate) fn difference(a: &Vec<u8>, b: &Vec<u8>) -> (r: Vec<u8>)
    requires
        value(b@) <= value(a@),
    ensures
        value(r@) == value(a@) - value(b@),
{
    let n = if a.len() >= b.len() {
        a.len()
    } else {
        b.len()
    };
    let mut r: Vec<u8> = Vec::new();
    let mut borrow: i16 = 0;
    let mut i: usize = 0;
    proof {
        lemma_low_zero(a@);
        lemma_low_zero(b@);
    }
    while i < n
        invariant
            i <= n,
            n >= a@.len(),
            n >= b@.len(),
            r@.len() == i,
            0 <= borrow <= 1,
            value(r@) + low(b@, i as nat) == low(a@, i as nat) + borrow * weight(i as nat),
        decreases n - i,
    {
        let da: i16 = if i < a.len() {
            a[i] as i16
        } else {
            0
        };
        let db: i16 = if i < b.len() {
            b[i] as i16
        } else {
            0
        };
        let t: i16 = da - db - borrow;
        let next: i16 = if t < 0 {
            1
        } else {
            0
        };
        let d: u8 = (t + 256 * next) as u8;
        proof {
            lemma_low_step(a@, i as nat);
            lemma_low_step(b@, i as nat);
            lemma_value_push(r@, d);
            let w = weight(i as nat);
            assert(weight((i + 1) as nat) == 256 * w);
            assert(borrow * w + d * w + db * w == da * w + next * (256 * w))
                by (nonlinear_arith)
                requires
                    d == da - db - borrow + 256 * next,
            ;
        }
        r.push(d);
        borrow = next;
        i += 1;
    }
    proof {
        lemma_value_bound(r@);
        let w = weight(n as nat);
        assert(borrow == 0) by {
            if borrow == 1 {
                assert(1 * w == w) by (nonlinear_arith);
            }
        }
        assert(0 * w == 0) by (nonlinear_arith);
    }
    r
}

/// The digits of a number multiplied by one digit.
pub(crate) fn scaled(a: &Vec<u8>, d: u8) -> (r: Vec<u8>)
    ensures
        value(r@) == value(a@) * d,
{
    let mut r: Vec<u8> = Vec::new();
    let mut carry: u16 = 0;
    let mut i: usize = 0;
    proof {
        lemma_low_zero(a@);
        assert(0 * d == 0) by (nonlinear_arith);
    }
    while i < a.len()
        invariant
            i <= a@.len(),
            r@.len() == i,
            carry <= 254,
            value(r@) + carry * weight(i as nat) == low(a@, i as nat) * d,
        decreases a@.len() - i,
    {
        let da: u16 = a[i] as u16;
        assert(da * d <= 255 * 255) by (nonlinear_arith)
            requires
                da <= 255,
                d <= 255,
        ;
        let t: u16 = da * (d as u16) + carry;
        let low_digit: u8 = (t % 256) as u8;
        proof {
            lemma_low_step(a@, i as nat);
            lemma_value_push(r@, low_digit);
            let w = weight(i as nat);
            let l = low(a@, i as nat);
            assert(weight((i + 1) as nat) == 256 * w);
            assert(low_digit * w + (t / 256) * (256 * w) + l * d == (l + da * w) * d + carry * w)
                by (nonlinear_arith)
                requires
                    t == da * d + carry,
                    t == 256 * (t / 256) + low_digit,
            ;
        }
        r.push(low_digit);
        carry = t / 256;
        i += 1;
    }
    if carry > 0 {
        proof {
            lemma_value_push(r@, carry as u8);
        }
        r.push(carry as u8);
    } else {
        proof {
            assert(0 * weight(i as nat) == 0) by (nonlinear_arith);
        }
    }
    r
}

/// The digits of a number multiplied by the weight of position `k`.
pub(crate) fn shifted(a: &Vec<u8>, k: usize) -> (r: Vec<u8>)
    ensures
        value(r@) == value(a@) * weight(k as nat),
{
    let mut r: Vec<u8> = Vec::new();
    let mut i: usize = 0;
    while i < k
        invariant
            i <= k,
            r@.len() == i,
            forall|j: int| 0 <= j < r@.len() ==> r@[j] == 0,
        decreases k - i,
    {
        r.push(0);
        i += 1;
    }
    let ghost zeros = r@;
    let mut j: usize = 0;
    while j < a.len()
        invariant
            j <= a@.len(),
            r@ == zeros + a@.take(j as int),
        decreases a@.len() - j,
    {
        r.push(a[j]);
        proof {
            assert(r@ =~= zeros + a@.take(j + 1));
        }
        j += 1;
    }
    proof {
        assert(a@.take(a@.len() as int) =~= a@);
        lemma_value_shift(zeros, a@);
        assert(weight(k as nat) * value(a@) == value(a@) * weight(k as nat)) by (nonlinear_arith);
    }
    r
}

/// The digits of the product of two numbers.
pub(crate) fn product(a: &Vec<u8>, b: &Vec<u8>) -> (r: Vec<u8>)
    ensures
        value(r@) == value(a@) * value(b@),
{
    let mut r: Vec<u8> = Vec::new();
    let mut i: usize = 0;
    proof {
        lemma_low_zero(a@);
        assert(0 * value(b@) == 0) by (nonlinear_arith);
    }
    while i < a.len()
        invariant
            i <= a@.len(),
            value(r@) == low(a@, i as nat) * value(b@),
        decreases a@.len() - i,
    {
        let row = scaled(b, a[i]);
        let term = shifted(&row, i);
        proof {
            lemma_low_step(a@, i as nat);
            let l = low(a@, i as nat);
            let d = a@[i as int] as nat;
            let w = weight(i as nat);
            let vb = value(b@);
            assert(l * vb + (vb * d) * w == (l + d * w) * vb) by (nonlinear_arith);
        }
        r = sum(&r, &term);
        i += 1;
    }
    r
}

/// Whether the first of two numbers is the smaller.
pub(crate) fn less(a: &Vec<u8>, b: &Vec<u8>) -> (r: bool)
    requires
        canonical(a@),
        canonical(b@),
    ensures
        r == (value(a@) < value(b@)),
{
    if a.len() < b.len() {
        proof {
            lemma_longer_is_larger(a@, b@);
        }
        return true;
    }
    if b.len() < a.len() {
        proof {
            lemma_longer_is_larger(b@, a@);
        }
        return false;
    }
    let mut i: usize = a.len();
    while i > 0
        invariant
            i <= a@.len(),
            a@.len() == b@.len(),
            forall|k: int| i <= k < a@.len() ==> a@[k] == b@[k],
        decreases i,
    {
        i -= 1;
        if a[i] != b[i] {
            proof {
                if a@[i as int] < b@[i as int] {
                    lemma_value_order(a@, b@, i as int);
                } else {
                    lemma_value_order(b@, a@, i as int);
                }
            }
            return a[i] < b[i];
        }
    }
    proof {
        assert(a@ =~= b@);
    }
    false
}

/// The canonical digits of a machine integer.
pub(crate) fn digits_of(v: u128) -> (r: Vec<u8>)
    ensures
        canonical(r@),
        value(r@) == v,
{
    let mut r: Vec<u8> = Vec::new();
    let mut rest: u128 = v;
    proof {
        assert(v * weight(0) == v) by (nonlinear_arith)
            requires
                weight(0) == 1,
        ;
    }
    while rest > 0
        invariant
            value(r@) + rest * weight(r@.len()) == v,
            rest == 0 ==> canonical(r@),
        decreases rest,
    {
        let d: u8 = (rest % 256) as u8;
        proof {
            lemma_value_push(r@, d);
            let w = weight(r@.len());
            assert(weight(r@.len() + 1) == 256 * w);
            assert(d * w + (rest / 256) * (256 * w) == rest * w) by (nonlinear_arith)
                requires
                    rest == 256 * (rest / 256) + d,
            ;
        }
        r.push(d);
        rest = rest / 256;
    }
    proof {
        assert(0 * weight(r@.len()) == 0) by (nonlinear_arith);
    }
    r
}

/// The machine integer that canonical digits stand for, if it is that small.
pub(crate) fn machine_value(a: &Vec<u8>) -> (r: Option<u128>)
    requires
        canonical(a@),
    ensures
        r == if value(a@) <= u128::MAX {
            Some(value(a@) as u128)
        } else {
            None
        },
{
    proof {
        lemma_weight_16();
    }
    if a.len() > 16 {
        proof {
            lemma_value_floor(a@);
            lemma_weight_monotonic(16, (a@.len() - 1) as nat);
        }
        return None;
    }
    let mut acc: u128 = 0;
    let mut i: usize = a.len();
    proof {
        assert(a@.skip(a@.len() as int).len() == 0);
    }
    while i > 0
        invariant
            i <= a@.len(),
            a@.len() <= 16,
            acc == value(a@.skip(i as int)),
            weight(16) == 0x1_0000_0000_0000_0000_0000_0000_0000_0000,
        decreases i,
    {
        i -= 1;
        proof {
            let top = a@.skip(i as int);
            lemma_value_front(top);
            assert(top.skip(1) =~= a@.skip(i + 1));
            lemma_value_bound(top);
            lemma_weight_monotonic(top.len(), 16);
        }
        acc = acc * 256 + a[i] as u128;
    }
    proof {
        assert(a@.skip(0) =~= a@);
    }
    Some(acc)
}

/// The digits in the opposite order.
pub(crate) fn reversed(a: &[u8]) -> (r: Vec<u8>)
    ensures
        r@ == a@.reverse(),
{
    let mut r: Vec<u8> = Vec::new();
    let mut i: usize = a.len();
    while i > 0
        invariant
            i <= a@.len(),
            r@.len() == a@.len() - i,
            forall|k: int| 0 <= k < r@.len() ==> r@[k] == a@[a@.len() - 1 - k],
        decreases i,
    {
        i -= 1;
        r.push(a[i]);
    }
    proof {
        assert(r@ =~= a@.reverse());
    }
    r
}

} // verus!
