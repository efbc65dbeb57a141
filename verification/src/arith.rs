//! Products of list lengths, saturating capping, and the mixed-radix
//! "digit" arithmetic behind the non-repeating enumerator: the `t`-th
//! combination of a sequence of lists is addressed by the digits of `t`
//! in the mixed-radix system whose radices are the list lengths.

use vstd::prelude::*;
use vstd::arithmetic::div_mod::lemma_div_denominator;
use vstd::arithmetic::div_mod::lemma_fundamental_div_mod;
use vstd::arithmetic::div_mod::lemma_fundamental_div_mod_converse;
use vstd::arithmetic::div_mod::lemma_mod_division_less_than_divisor;

verus! {

/// The product of a sequence of lengths; 1 for the empty sequence.
pub open spec fn list_product(lens: Seq<nat>) -> nat
    decreases lens.len(),
{
    if lens.len() == 0 {
        1
    } else {
        lens[0] * list_product(lens.drop_first())
    }
}

pub proof fn lemma_product_push(lens: Seq<nat>, x: nat)
    ensures
        list_product(lens.push(x)) == list_product(lens) * x,
    decreases lens.len(),
{
    if lens.len() == 0 {
        assert(lens.push(x)[0] == x);
        assert(lens.push(x).drop_first() =~= Seq::<nat>::empty());
        assert(list_product(Seq::<nat>::empty()) == 1);
        assert(list_product(lens.push(x)) == x * 1);
        assert(list_product(lens) * x == 1 * x);
    } else {
        assert(list_product(lens) == lens[0] * list_product(lens.drop_first()));
        lemma_product_push(lens.drop_first(), x);
        assert(lens.push(x).drop_first() =~= lens.drop_first().push(x));
        assert(lens.push(x)[0] == lens[0]);
        assert(list_product(lens.push(x)) == lens[0] * (list_product(lens.drop_first()) * x));
        assert(lens[0] * (list_product(lens.drop_first()) * x) == (lens[0] * list_product(
            lens.drop_first(),
        )) * x) by (nonlinear_arith);
    }
}

pub proof fn lemma_product_take_succ(lens: Seq<nat>, i: int)
    requires
        0 <= i < lens.len(),
    ensures
        list_product(lens.take(i + 1)) == list_product(lens.take(i)) * lens[i],
{
    assert(lens.take(i + 1) =~= lens.take(i).push(lens[i]));
    lemma_product_push(lens.take(i), lens[i]);
}

pub proof fn lemma_product_pos(lens: Seq<nat>)
    requires
        forall|j: int| 0 <= j < lens.len() ==> lens[j] >= 1,
    ensures
        list_product(lens) >= 1,
    decreases lens.len(),
{
    if lens.len() > 0 {
        lemma_product_pos(lens.drop_first());
        assert(lens[0] * list_product(lens.drop_first()) >= 1) by (nonlinear_arith)
            requires
                lens[0] >= 1,
                list_product(lens.drop_first()) >= 1,
        ;
    }
}

pub proof fn lemma_product_zero(lens: Seq<nat>, j: int)
    requires
        0 <= j < lens.len(),
        lens[j] == 0,
    ensures
        list_product(lens) == 0,
    decreases lens.len(),
{
    if j == 0 {
    } else {
        lemma_product_zero(lens.drop_first(), j - 1);
    }
}

/// The weight of position `i`: the product of the lengths before it.
pub open spec fn place_value(lens: Seq<nat>, i: int) -> nat {
    list_product(lens.take(i))
}

/// Digit `i` of `t` in the mixed-radix system given by `lens`.
pub open spec fn digit(lens: Seq<nat>, t: int, i: int) -> int {
    (t / place_value(lens, i) as int) % lens[i] as int
}

pub proof fn lemma_place_value_pos(lens: Seq<nat>, i: int)
    requires
        forall|j: int| 0 <= j < lens.len() ==> lens[j] >= 1,
        0 <= i <= lens.len(),
    ensures
        place_value(lens, i) >= 1,
{
    assert forall|j: int| 0 <= j < lens.take(i).len() implies lens.take(i)[j] >= 1 by {}
    lemma_product_pos(lens.take(i));
}

pub proof fn lemma_digit_range(lens: Seq<nat>, t: int, i: int)
    requires
        forall|j: int| 0 <= j < lens.len() ==> lens[j] >= 1,
        0 <= i < lens.len(),
        t >= 0,
    ensures
        0 <= digit(lens, t, i) < lens[i],
{
    lemma_place_value_pos(lens, i);
    lemma_mod_division_less_than_divisor(t / place_value(lens, i) as int, lens[i] as int);
}

/// The product of a middle piece factors out of a prefix product.
pub proof fn lemma_place_value_split(lens: Seq<nat>, i: int, j: int)
    requires
        0 <= i <= j <= lens.len(),
    ensures
        place_value(lens, j) == place_value(lens, i) * list_product(lens.subrange(i, j)),
    decreases j - i,
{
    if i == j {
        assert(lens.subrange(i, j) =~= Seq::<nat>::empty());
        assert(list_product(Seq::<nat>::empty()) == 1);
    } else {
        lemma_place_value_split(lens, i, j - 1);
        lemma_product_take_succ(lens, j - 1);
        assert(lens.subrange(i, j) =~= lens.subrange(i, j - 1).push(lens[j - 1]));
        lemma_product_push(lens.subrange(i, j - 1), lens[j - 1]);
        assert(place_value(lens, j) == (place_value(lens, i) * list_product(
            lens.subrange(i, j - 1),
        )) * lens[j - 1]);
        assert((place_value(lens, i) * list_product(lens.subrange(i, j - 1))) * lens[j - 1]
            == place_value(lens, i) * (list_product(lens.subrange(i, j - 1)) * lens[j - 1]))
            by (nonlinear_arith);
        assert(list_product(lens.subrange(i, j)) == list_product(lens.subrange(i, j - 1)) * lens[j
            - 1]);
    }
}

/// How one carry step moves digit `i`: when the carry reaches position `i`
/// at step `t` (that is, `place_value(lens, i)` divides `t`), the digit
/// either steps up by one and the carry stops, or wraps from its maximum
/// to zero and the carry continues.
pub proof fn lemma_digit_step(lens: Seq<nat>, t: int, i: int)
    requires
        forall|j: int| 0 <= j < lens.len() ==> lens[j] >= 1,
        0 <= i < lens.len(),
        t >= 1,
        t % place_value(lens, i) as int == 0,
    ensures
        0 <= digit(lens, t - 1, i) < lens[i],
        digit(lens, t - 1, i) == lens[i] - 1 ==> digit(lens, t, i) == 0 && t % place_value(
            lens,
            i + 1,
        ) as int == 0,
        digit(lens, t - 1, i) < lens[i] - 1 ==> digit(lens, t, i) == digit(lens, t - 1, i) + 1 && t
            % place_value(lens, i + 1) as int != 0,
{
    let p = place_value(lens, i) as int;
    let k = lens[i] as int;
    lemma_place_value_pos(lens, i);
    lemma_digit_range(lens, t - 1, i);
    lemma_product_take_succ(lens, i);
    let q = t / p;
    lemma_fundamental_div_mod(t, p);
    assert(t == p * q);
    assert(q >= 1) by (nonlinear_arith)
        requires
            t == p * q,
            t >= 1,
            p >= 1,
    ;
    // (t - 1) divided by p: quotient q - 1, remainder p - 1.
    assert(t - 1 == (q - 1) * p + (p - 1)) by (nonlinear_arith)
        requires
            t == p * q,
    ;
    lemma_fundamental_div_mod_converse(t - 1, p, q - 1, p - 1);
    assert((t - 1) / p == q - 1);
    let d = (q - 1) % k;
    let a = (q - 1) / k;
    lemma_fundamental_div_mod(q - 1, k);
    assert(q - 1 == k * a + d);
    lemma_mod_division_less_than_divisor(q - 1, k);
    if d == k - 1 {
        // q is a multiple of k: the digit wraps and the carry continues.
        assert(q == (a + 1) * k + 0) by (nonlinear_arith)
            requires
                q - 1 == k * a + (k - 1),
        ;
        lemma_fundamental_div_mod_converse(q, k, a + 1, 0);
        assert(digit(lens, t, i) == 0);
        assert(t == ((p * k)) * (a + 1) + 0) by (nonlinear_arith)
            requires
                t == p * q,
                q == (a + 1) * k,
        ;
        assert(p * k >= 1) by (nonlinear_arith)
            requires
                p >= 1,
                k >= 1,
        ;
        lemma_fundamental_div_mod_converse(t, p * k, a + 1, 0);
        assert(t % place_value(lens, i + 1) as int == 0);
    } else {
        // the digit steps up by one and the carry stops here.
        assert(q == a * k + (d + 1)) by (nonlinear_arith)
            requires
                q - 1 == k * a + d,
        ;
        lemma_fundamental_div_mod_converse(q, k, a, d + 1);
        assert(digit(lens, t, i) == d + 1);
        let pk = p * k;
        assert(p * k >= 1) by (nonlinear_arith)
            requires
                p >= 1,
                k >= 1,
        ;
        if t % place_value(lens, i + 1) as int == 0 {
            let b = t / pk;
            lemma_fundamental_div_mod(t, pk);
            assert(t == pk * b);
            assert(t == p * (k * b)) by (nonlinear_arith)
                requires
                    t == pk * b,
                    pk == p * k,
            ;
            assert(p * q == p * (k * b) ==> q == k * b) by (nonlinear_arith)
                requires
                    p >= 1,
            ;
            assert(q == k * b + 0);
            lemma_fundamental_div_mod_converse(q, k, b, 0);
            assert(q % k == 0);
            assert(false);
        }
    }
}

/// When the carry has stopped before position `i`, every later digit is
/// unchanged from the previous step, and the carry reaches no later position.
pub proof fn lemma_digit_nocarry(lens: Seq<nat>, t: int, i: int, j: int)
    requires
        forall|q: int| 0 <= q < lens.len() ==> lens[q] >= 1,
        0 <= i <= j <= lens.len(),
        t >= 1,
        t % place_value(lens, i) as int != 0,
    ensures
        t % place_value(lens, j) as int != 0,
        j < lens.len() ==> digit(lens, t, j) == digit(lens, t - 1, j),
{
    let p = place_value(lens, i) as int;
    let pj = place_value(lens, j) as int;
    let mid = list_product(lens.subrange(i, j)) as int;
    lemma_place_value_pos(lens, i);
    lemma_place_value_pos(lens, j);
    lemma_place_value_split(lens, i, j);
    assert(pj == p * mid);
    assert(mid >= 1) by (nonlinear_arith)
        requires
            pj == p * mid,
            pj >= 1,
            p >= 1,
    ;
    if t % pj == 0 {
        let b = t / pj;
        lemma_fundamental_div_mod(t, pj);
        assert(t == pj * b);
        assert(t == p * (mid * b) + 0) by (nonlinear_arith)
            requires
                t == pj * b,
                pj == p * mid,
        ;
        lemma_fundamental_div_mod_converse(t, p, mid * b, 0);
        assert(false);
    }
    if j < lens.len() {
        let r = t % pj;
        let c = t / pj;
        lemma_fundamental_div_mod(t, pj);
        lemma_mod_division_less_than_divisor(t, pj);
        assert(t - 1 == c * pj + (r - 1)) by (nonlinear_arith)
            requires
                t == pj * c + r,
        ;
        lemma_fundamental_div_mod_converse(t - 1, pj, c, r - 1);
        assert((t - 1) / pj == c);
    }
}

/// The saturating cap at the largest `u128` value.
pub open spec fn sat_cap(n: nat) -> nat {
    if n > u128::MAX {
        u128::MAX as nat
    } else {
        n
    }
}

/// Capping an intermediate product does not change the capped result.
pub proof fn lemma_sat_cap_mul(a: nat, b: nat)
    ensures
        sat_cap(sat_cap(a) * b) == sat_cap(a * b),
{
    if a > u128::MAX {
        if b == 0 {
        } else {
            assert(u128::MAX as nat * b >= u128::MAX as nat * 1) by (nonlinear_arith)
                requires
                    b >= 1,
            ;
            assert(a * b >= a * 1) by (nonlinear_arith)
                requires
                    b >= 1,
            ;
        }
    }
}

/// Distinct step counters have distinct digit vectors: the mixed-radix
/// representation of `t` below the full product is unique.
pub proof fn lemma_digits_unique(lens: Seq<nat>, t1: int, t2: int)
    requires
        forall|j: int| 0 <= j < lens.len() ==> lens[j] >= 1,
        0 <= t1 < list_product(lens),
        0 <= t2 < list_product(lens),
        forall|i: int| 0 <= i < lens.len() ==> digit(lens, t1, i) == digit(lens, t2, i),
    ensures
        t1 == t2,
    decreases lens.len(),
{
    if lens.len() == 0 {
    } else {
        let k = lens[0] as int;
        let rest = lens.drop_first();
        let np = list_product(rest) as int;
        assert(list_product(lens) == k * np);
        // digit 0 is the remainder modulo the first length.
        assert(lens.take(0) =~= Seq::<nat>::empty());
        assert(place_value(lens, 0) == 1);
        lemma_div_by_one(t1);
        lemma_div_by_one(t2);
        assert(digit(lens, t1, 0) == t1 % k);
        assert(digit(lens, t2, 0) == t2 % k);
        // later digits are the digits of the quotient in the remaining radices.
        let q1 = t1 / k;
        let q2 = t2 / k;
        assert forall|i: int| 0 <= i < rest.len() implies digit(rest, q1, i) == digit(
            lens,
            t1,
            i + 1,
        ) && digit(rest, q2, i) == digit(lens, t2, i + 1) by {
            lemma_digit_shift(lens, t1, i);
            lemma_digit_shift(lens, t2, i);
        }
        assert forall|j: int| 0 <= j < rest.len() implies rest[j] >= 1 by {}
        lemma_quotient_bound(t1, k, np);
        lemma_quotient_bound(t2, k, np);
        lemma_digits_unique(rest, q1, q2);
        lemma_fundamental_div_mod(t1, k);
        lemma_fundamental_div_mod(t2, k);
    }
}

proof fn lemma_div_by_one(t: int)
    ensures
        t / 1 == t,
{
    lemma_fundamental_div_mod(t, 1);
    lemma_mod_division_less_than_divisor(t, 1);
}

/// Dropping the first radix shifts every later digit down one position.
proof fn lemma_digit_shift(lens: Seq<nat>, t: int, i: int)
    requires
        forall|j: int| 0 <= j < lens.len() ==> lens[j] >= 1,
        lens.len() >= 1,
        0 <= i < lens.len() - 1,
        t >= 0,
    ensures
        digit(lens.drop_first(), t / lens[0] as int, i) == digit(lens, t, i + 1),
{
    let k = lens[0] as int;
    let rest = lens.drop_first();
    assert(lens.take(i + 1).drop_first() =~= rest.take(i));
    assert(lens.take(i + 1)[0] == lens[0]);
    assert(list_product(lens.take(i + 1)) == lens[0] * list_product(rest.take(i)));
    assert forall|j: int| 0 <= j < rest.len() implies rest[j] >= 1 by {}
    lemma_place_value_pos(rest, i);
    let pv = place_value(rest, i) as int;
    lemma_div_denominator(t, k, pv);
    assert((t / k) / pv == t / (k * pv));
    assert(rest[i] == lens[i + 1]);
}

proof fn lemma_quotient_bound(t: int, k: int, np: int)
    requires
        k >= 1,
        np >= 0,
        0 <= t < k * np,
    ensures
        0 <= t / k < np,
{
    lemma_fundamental_div_mod(t, k);
    lemma_mod_division_less_than_divisor(t, k);
    assert(t / k >= 0) by (nonlinear_arith)
        requires
            t == k * (t / k) + t % k,
            0 <= t % k < k,
            t >= 0,
            k >= 1,
    ;
    assert(t / k < np) by (nonlinear_arith)
        requires
            t == k * (t / k) + t % k,
            0 <= t % k < k,
            t < k * np,
            k >= 1,
    ;
}

} // verus!
