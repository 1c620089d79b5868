//! Arithmetic on strings of decimal digits of any length: sums and
//! differences digit by digit, and the digits of a value without zeros in
//! front.

use crate::number::{all_digits, digits_of, digits_value, is_digit, strip_leading_zeros, zeros};
use vstd::prelude::*;

verus! {

/// The digits of the sum of the first `n` digits of `a` and of `b` and a
/// carry, written from the last digit on.
pub open spec fn sum_digits(a: Seq<u8>, b: Seq<u8>, n: nat, carry: int) -> Seq<u8>
    decreases n,
{
    if n == 0 {
        if carry == 0 {
            Seq::empty()
        } else {
            seq![49u8]
        }
    } else {
        let s = (a[n - 1] - 48) + (b[n - 1] - 48) + carry;
        sum_digits(a, b, (n - 1) as nat, s / 10).push((48 + s % 10) as u8)
    }
}

/// What is borrowed at one place of a difference.
pub open spec fn borrow_at(a: Seq<u8>, b: Seq<u8>, i: int, borrow: int) -> int {
    if a[i] - b[i] - borrow < 0 {
        1
    } else {
        0
    }
}

/// What is left to borrow after the first `n` digits of `b` and a borrow were
/// taken from the first `n` digits of `a`: 0 where `a` was large enough.
pub open spec fn borrow_out(a: Seq<u8>, b: Seq<u8>, n: nat, borrow: int) -> int
    decreases n,
{
    if n == 0 {
        borrow
    } else {
        borrow_out(a, b, (n - 1) as nat, borrow_at(a, b, n - 1, borrow))
    }
}

/// The digits of the difference of the first `n` digits of `a` and of `b`,
/// less a borrow, written from the last digit on.
pub open spec fn diff_digits(a: Seq<u8>, b: Seq<u8>, n: nat, borrow: int) -> Seq<u8>
    decreases n,
{
    if n == 0 {
        Seq::empty()
    } else {
        let t = a[n - 1] - b[n - 1] - borrow;
        diff_digits(a, b, (n - 1) as nat, borrow_at(a, b, n - 1, borrow)).push(
            (48 + t + 10 * borrow_at(a, b, n - 1, borrow)) as u8,
        )
    }
}

/// The digits of a value without zeros in front; a single zero for nothing.
pub open spec fn canonical(d: Seq<u8>) -> Seq<u8> {
    if strip_leading_zeros(d).len() == 0 {
        seq![48u8]
    } else {
        strip_leading_zeros(d)
    }
}

/// The value of digits with one more digit behind them.
pub proof fn lemma_value_push(d: Seq<u8>, x: u8)
    ensures
        digits_value(d.push(x)) == digits_value(d) * 10 + (x - 48) as nat,
{
    assert(d.push(x).drop_last() =~= d);
}

/// The digits of a sum are digits, and their value is the sum of the values.
pub proof fn lemma_sum_digits(a: Seq<u8>, b: Seq<u8>, n: nat, carry: int)
    requires
        all_digits(a),
        all_digits(b),
        n <= a.len(),
        n <= b.len(),
        0 <= carry <= 1,
    ensures
        all_digits(sum_digits(a, b, n, carry)),
        digits_value(sum_digits(a, b, n, carry)) == digits_value(a.take(n as int)) + digits_value(
            b.take(n as int),
        ) + carry,
    decreases n,
{
    if n == 0 {
        assert(a.take(0) =~= Seq::<u8>::empty());
        assert(b.take(0) =~= Seq::<u8>::empty());
        if carry != 0 {
            lemma_value_push(Seq::empty(), 49u8);
            assert(Seq::<u8>::empty().push(49u8) =~= seq![49u8]);
        }
    } else {
        let m = (n - 1) as nat;
        assert(is_digit(a[n - 1]) && is_digit(b[n - 1]));
        let s = (a[n - 1] - 48) + (b[n - 1] - 48) + carry;
        let rest = sum_digits(a, b, m, s / 10);
        let x = (48 + s % 10) as u8;
        lemma_sum_digits(a, b, m, s / 10);
        lemma_value_push(rest, x);
        assert(a.take(n as int).drop_last() =~= a.take(m as int));
        assert(b.take(n as int).drop_last() =~= b.take(m as int));
        assert(a.take(n as int).last() == a[n - 1]);
        assert(b.take(n as int).last() == b[n - 1]);
        assert forall|i: int| 0 <= i < rest.push(x).len() implies is_digit(
            #[trigger] rest.push(x)[i],
        ) by {
            if i < rest.len() {
                assert(rest.push(x)[i] == rest[i]);
            }
        }
    }
}

/// Nothing is left to borrow exactly where the first digits of `a` are worth
/// at least those of `b` and the borrow; the digits of the difference are
/// then worth the difference.
pub proof fn lemma_diff_digits(a: Seq<u8>, b: Seq<u8>, n: nat, borrow: int)
    requires
        all_digits(a),
        all_digits(b),
        n <= a.len(),
        n <= b.len(),
        0 <= borrow <= 1,
    ensures
        0 <= borrow_out(a, b, n, borrow) <= 1,
        borrow_out(a, b, n, borrow) == 0 <==> digits_value(a.take(n as int)) >= digits_value(
            b.take(n as int),
        ) + borrow,
        borrow_out(a, b, n, borrow) == 0 ==> digits_value(diff_digits(a, b, n, borrow))
            == digits_value(a.take(n as int)) - digits_value(b.take(n as int)) - borrow,
        all_digits(diff_digits(a, b, n, borrow)),
        diff_digits(a, b, n, borrow).len() == n,
    decreases n,
{
    if n == 0 {
        assert(a.take(0) =~= Seq::<u8>::empty());
        assert(b.take(0) =~= Seq::<u8>::empty());
    } else {
        let m = (n - 1) as nat;
        assert(is_digit(a[n - 1]) && is_digit(b[n - 1]));
        let t = a[n - 1] - b[n - 1] - borrow;
        let next = borrow_at(a, b, n - 1, borrow);
        let rest = diff_digits(a, b, m, next);
        let x = (48 + t + 10 * next) as u8;
        lemma_diff_digits(a, b, m, next);
        lemma_value_push(rest, x);
        assert(a.take(n as int).drop_last() =~= a.take(m as int));
        assert(b.take(n as int).drop_last() =~= b.take(m as int));
        assert(a.take(n as int).last() == a[n - 1]);
        assert(b.take(n as int).last() == b[n - 1]);
        assert forall|i: int| 0 <= i < rest.push(x).len() implies is_digit(
            #[trigger] rest.push(x)[i],
        ) by {
            if i < rest.len() {
                assert(rest.push(x)[i] == rest[i]);
            }
        }
    }
}

/// Zeros are worth nothing.
pub proof fn lemma_zeros_value(k: nat)
    ensures
        digits_value(zeros(k)) == 0,
    decreases k,
{
    if k > 0 {
        lemma_zeros_value((k - 1) as nat);
        assert(zeros(k).drop_last() =~= zeros((k - 1) as nat));
    }
}

/// Zeros in front of digits do not change their value.
pub proof fn lemma_leading_zeros_value(k: nat, d: Seq<u8>)
    ensures
        digits_value(zeros(k) + d) == digits_value(d),
    decreases d.len(),
{
    if d.len() == 0 {
        assert(zeros(k) + d =~= zeros(k));
        lemma_zeros_value(k);
    } else {
        lemma_leading_zeros_value(k, d.drop_last());
        assert((zeros(k) + d).drop_last() =~= zeros(k) + d.drop_last());
    }
}

/// Digits without their zeros in front, with one more digit behind them.
pub proof fn lemma_strip_push(p: Seq<u8>, x: u8)
    ensures
        strip_leading_zeros(p.push(x)) == if strip_leading_zeros(p).len() > 0 {
            strip_leading_zeros(p).push(x)
        } else if x == 48 {
            Seq::<u8>::empty()
        } else {
            seq![x]
        },
    decreases p.len(),
{
    let q = p.push(x);
    if p.len() == 0 {
        assert(q =~= seq![x]);
        assert(q.skip(1) =~= Seq::<u8>::empty());
        assert(strip_leading_zeros(q.skip(1)) == q.skip(1));
        assert(strip_leading_zeros(p) == p);
        assert(q[0] == x);
    } else if p[0] == 48 {
        assert(q[0] == 48);
        assert(q.skip(1) =~= p.skip(1).push(x));
        lemma_strip_push(p.skip(1), x);
    } else {
        assert(q[0] == p[0]);
        assert(strip_leading_zeros(q) == q);
        assert(strip_leading_zeros(p) == p);
    }
}

/// The digits of a value are the digits that it was written with, less the
/// zeros in front; only zero is written with zeros alone.
pub proof fn lemma_canonical(d: Seq<u8>)
    requires
        all_digits(d),
    ensures
        strip_leading_zeros(d).len() == 0 <==> digits_value(d) == 0,
        digits_of(digits_value(d)) == canonical(d),
    decreases d.len(),
{
    if d.len() > 0 {
        let p = d.drop_last();
        let x = d.last();
        assert(d =~= p.push(x));
        assert(is_digit(x));
        assert forall|i: int| 0 <= i < p.len() implies is_digit(#[trigger] p[i]) by {
            assert(p[i] == d[i]);
        }
        lemma_canonical(p);
        lemma_strip_push(p, x);
        let n = digits_value(d);
        assert(n == digits_value(p) * 10 + (x - 48));
        if strip_leading_zeros(p).len() > 0 {
            assert(n >= 10);
            assert(n / 10 == digits_value(p));
            assert(n % 10 == x - 48);
        }
    }
}

/// A copy in reverse order.
pub(crate) fn reversed(v: &Vec<u8>) -> (r: Vec<u8>)
    ensures
        r@ == v@.reverse(),
{
    let mut out: Vec<u8> = Vec::new();
    let mut i: usize = v.len();
    while i > 0
        invariant
            i <= v.len(),
            out@.len() == v.len() - i,
            forall|k: int| 0 <= k < out@.len() ==> out@[k] == v@[v.len() - 1 - k],
        decreases i,
    {
        i -= 1;
        out.push(v[i]);
    }
    proof {
        assert(out@ =~= v@.reverse());
    }
    out
}

/// The digits of the sum of two strings of digits of one length.
pub(crate) fn add_digits(a: &[u8], b: &[u8]) -> (r: Vec<u8>)
    requires
        all_digits(a@),
        all_digits(b@),
        a.len() == b.len(),
    ensures
        all_digits(r@),
        digits_value(r@) == digits_value(a@) + digits_value(b@),
{
    let n = a.len();
    let mut rev: Vec<u8> = Vec::new();
    let mut carry: u8 = 0;
    let mut i: usize = n;
    proof {
        assert(sum_digits(a@, b@, n as nat, 0) + rev@.reverse() =~= sum_digits(a@, b@, n as nat, 0));
    }
    while i > 0
        invariant
            i <= n,
            n == a.len(),
            n == b.len(),
            all_digits(a@),
            all_digits(b@),
            carry <= 1,
            sum_digits(a@, b@, n as nat, 0) == sum_digits(a@, b@, i as nat, carry as int)
                + rev@.reverse(),
        decreases i,
    {
        let ghost before = rev@;
        let ghost old_carry = carry as int;
        i -= 1;
        assert(is_digit(a@[i as int]) && is_digit(b@[i as int]));
        let s: u8 = (a[i] - 48) + (b[i] - 48) + carry;
        let x: u8 = 48 + s % 10;
        carry = s / 10;
        rev.push(x);
        proof {
            let front = sum_digits(a@, b@, i as nat, carry as int);
            assert(sum_digits(a@, b@, (i + 1) as nat, old_carry) == front.push(x));
            assert(rev@.reverse() =~= seq![x] + before.reverse());
            assert(front.push(x) + before.reverse() =~= front + rev@.reverse());
        }
    }
    if carry != 0 {
        let ghost before = rev@;
        rev.push(49);
        proof {
            assert(rev@.reverse() =~= seq![49u8] + before.reverse());
        }
    }
    let out = reversed(&rev);
    proof {
        assert(out@ =~= sum_digits(a@, b@, n as nat, 0));
        lemma_sum_digits(a@, b@, n as nat, 0);
        assert(a@.take(n as int) =~= a@);
        assert(b@.take(n as int) =~= b@);
    }
    out
}

/// The digits of the difference of two strings of digits of one length, and
/// whether the second is worth more than the first: the digits are then not
/// those of a difference.
pub(crate) fn sub_digits(a: &[u8], b: &[u8]) -> (r: (Vec<u8>, bool))
    requires
        all_digits(a@),
        all_digits(b@),
        a.len() == b.len(),
    ensures
        r.1 == (digits_value(a@) < digits_value(b@)),
        !r.1 ==> all_digits(r.0@) && digits_value(r.0@) == digits_value(a@) - digits_value(b@),
{
    let n = a.len();
    let mut rev: Vec<u8> = Vec::new();
    let mut borrow: u8 = 0;
    let mut i: usize = n;
    proof {
        assert(diff_digits(a@, b@, n as nat, 0) + rev@.reverse() =~= diff_digits(
            a@,
            b@,
            n as nat,
            0,
        ));
    }
    while i > 0
        invariant
            i <= n,
            n == a.len(),
            n == b.len(),
            all_digits(a@),
            all_digits(b@),
            borrow <= 1,
            diff_digits(a@, b@, n as nat, 0) == diff_digits(a@, b@, i as nat, borrow as int)
                + rev@.reverse(),
            borrow_out(a@, b@, n as nat, 0) == borrow_out(a@, b@, i as nat, borrow as int),
        decreases i,
    {
        let ghost before = rev@;
        let ghost old_borrow = borrow as int;
        i -= 1;
        assert(is_digit(a@[i as int]) && is_digit(b@[i as int]));
        let top: u8 = a[i] - 48;
        let less: u8 = (b[i] - 48) + borrow;
        let x: u8 = if top < less {
            borrow = 1;
            48 + (top + 10 - less)
        } else {
            borrow = 0;
            48 + (top - less)
        };
        rev.push(x);
        proof {
            assert(borrow as int == borrow_at(a@, b@, i as int, old_borrow));
            let front = diff_digits(a@, b@, i as nat, borrow as int);
            assert(diff_digits(a@, b@, (i + 1) as nat, old_borrow) == front.push(x));
            assert(rev@.reverse() =~= seq![x] + before.reverse());
            assert(front.push(x) + before.reverse() =~= front + rev@.reverse());
        }
    }
    let out = reversed(&rev);
    proof {
        assert(out@ =~= diff_digits(a@, b@, n as nat, 0));
        lemma_diff_digits(a@, b@, n as nat, 0);
        assert(a@.take(n as int) =~= a@);
        assert(b@.take(n as int) =~= b@);
    }
    (out, borrow != 0)
}

/// The digits with zeros in front until they are `width` digits long.
pub(crate) fn pad_front(d: &[u8], width: usize) -> (r: Vec<u8>)
    requires
        all_digits(d@),
    ensures
        all_digits(r@),
        digits_value(r@) == digits_value(d@),
        r@.len() == if d.len() < width {
            width as int
        } else {
            d.len() as int
        },
{
    let mut out: Vec<u8> = Vec::new();
    let mut k: usize = d.len();
    while k < width
        invariant
            out@ == zeros((k - d.len()) as nat),
            d.len() <= k,
            k <= width || k == d.len(),
        decreases width - k,
    {
        out.push(48);
        k += 1;
        proof {
            assert(out@ =~= zeros((k - d.len()) as nat));
        }
    }
    let ghost head = out@;
    proof {
        assert(head.len() == k - d.len());
        assert(out@ =~= head + d@.take(0));
    }
    let mut i: usize = 0;
    while i < d.len()
        invariant
            i <= d.len(),
            out@ == head + d@.take(i as int),
        decreases d.len() - i,
    {
        out.push(d[i]);
        i += 1;
        proof {
            assert(out@ =~= head + d@.take(i as int));
        }
    }
    proof {
        assert(d@.take(i as int) =~= d@);
        assert(out@.len() == head.len() + d@.len());
        lemma_leading_zeros_value(head.len(), d@);
        assert(head =~= zeros(head.len()));
        assert forall|j: int| 0 <= j < out@.len() implies is_digit(#[trigger] out@[j]) by {
            if j >= head.len() {
                assert(out@[j] == d@[j - head.len()]);
            }
        }
    }
    out
}

/// The digits of the value of `d`: `d` without its zeros in front, or one
/// zero where nothing is left.
pub(crate) fn canonical_digits(d: &[u8]) -> (r: Vec<u8>)
    requires
        all_digits(d@),
    ensures
        r@ == digits_of(digits_value(d@)),
        r@.len() > 0,
        (digits_value(d@) == 0) == (r@.len() == 1 && r@[0] == 48),
{
    let mut n: usize = 0;
    proof {
        assert(d@.skip(0) =~= d@);
    }
    while n < d.len() && d[n] == 48
        invariant
            n <= d.len(),
            strip_leading_zeros(d@) == strip_leading_zeros(d@.skip(n as int)),
        decreases d.len() - n,
    {
        proof {
            let t = d@.skip(n as int);
            assert(t[0] == 48);
            assert(t.skip(1) =~= d@.skip(n + 1));
        }
        n += 1;
    }
    proof {
        let t = d@.skip(n as int);
        if n < d.len() {
            assert(t[0] == d@[n as int]);
        }
        assert(strip_leading_zeros(d@) == t);
        lemma_canonical(d@);
    }
    let mut out: Vec<u8> = Vec::new();
    if n == d.len() {
        out.push(48);
        proof {
            assert(out@ =~= seq![48u8]);
        }
    } else {
        let mut i: usize = n;
        while i < d.len()
            invariant
                n <= i <= d.len(),
                out@ == d@.subrange(n as int, i as int),
            decreases d.len() - i,
        {
            out.push(d[i]);
            i += 1;
            proof {
                assert(out@ =~= d@.subrange(n as int, i as int));
            }
        }
        proof {
            assert(d@.subrange(n as int, d.len() as int) =~= d@.skip(n as int));
            assert(out@[0] == d@[n as int]);
        }
    }
    out
}

} // verus!
