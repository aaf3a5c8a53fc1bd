//! Checked integer arithmetic: division, sums and products.
use vstd::prelude::*;

verus! {

/// Whether `x` is an `i64`.
pub open spec fn in_i64(x: int) -> bool {
    i64::MIN <= x <= i64::MAX
}

/// The quotient of `num` and `div`, rounded towards zero.
pub open spec fn quotient(num: int, div: int) -> int {
    if (num >= 0) == (div > 0) {
        magnitude(num) / magnitude(div)
    } else {
        -(magnitude(num) / magnitude(div))
    }
}

/// The absolute value of `x`.
pub open spec fn magnitude(x: int) -> int {
    if x < 0 {
        -x
    } else {
        x
    }
}

/// Whether `num / div` has a value: the divisor is not zero and the quotient is an `i64`.
pub open spec fn divides(num: int, div: int) -> bool {
    div != 0 && in_i64(quotient(num, div))
}

/// The quotient of `num` and `div`, rounded up. Of a quotient below zero, rounding towards zero is
/// rounding up; of another with a rest, it is one too few.
pub open spec fn quotient_rounded_up(num: int, div: int) -> int {
    if magnitude(num) % magnitude(div) != 0 && (num >= 0) == (div > 0) {
        quotient(num, div) + 1
    } else {
        quotient(num, div)
    }
}

/// A quotient with a rest is smaller in size than half its dividend allows,
/// so that one more still is an `i64`.
proof fn lemma_rounded_up_fits(num: i64, div: i64)
    requires
        divides(num as int, div as int),
    ensures
        in_i64(quotient_rounded_up(num as int, div as int)),
{
    let n = magnitude(num as int);
    let d = magnitude(div as int);
    if n % d != 0 {
        if d == 1 {
            assert(n % 1 == 0);
        }
        assert(0 <= n / d && 2 * (n / d) <= n) by (nonlinear_arith)
            requires
                n >= 0,
                d >= 2,
        ;
    }
}

/// Divide, rounding towards zero; nothing where the quotient has no value.
pub fn checked_quotient(num: i64, div: i64) -> (q: Option<i64>)
    ensures
        q == (if divides(num as int, div as int) {
            Some(quotient(num as int, div as int) as i64)
        } else {
            None
        }),
{
    num.checked_div(div)
}

/// Divide a number by the indicated divisor, and round up if there is a rest.
pub fn div_ceil(num: i64, div: i64) -> (q: i64)
    requires
        divides(num as int, div as int),
    ensures
        q == quotient_rounded_up(num as int, div as int),
{
    proof {
        lemma_rounded_up_fits(num, div);
        let n = magnitude(num as int);
        let d = magnitude(div as int);
        vstd::arithmetic::div_mod::lemma_mod_bound(n, d);
        vstd::arithmetic::div_mod::lemma_div_basics(n);
        if n == 0 {
            vstd::arithmetic::div_mod::lemma_small_mod(0, d as nat);
        }
    }
    let whole: i64 = num.checked_div(div).unwrap();
    let rest: i64 = num.checked_rem(div).unwrap();
    if rest != 0 && (num >= 0) == (div > 0) {
        whole + 1
    } else {
        whole
    }
}

/// The sum of `values`, provided that it and every partial sum are an `i64`.
pub open spec fn sum(values: Seq<i64>) -> Option<i64>
    decreases values.len(),
{
    if values.len() == 0 {
        Some(0)
    } else {
        match sum(values.drop_last()) {
            Some(partial) => if in_i64(partial + values.last()) {
                Some((partial + values.last()) as i64)
            } else {
                None
            },
            None => None,
        }
    }
}

/// The product of `values`, provided that it and every partial product are an `i64`.
pub open spec fn product(values: Seq<i64>) -> Option<i64>
    decreases values.len(),
{
    if values.len() == 0 {
        Some(1)
    } else {
        match product(values.drop_last()) {
            Some(partial) => if in_i64(partial * values.last()) {
                Some((partial * values.last()) as i64)
            } else {
                None
            },
            None => None,
        }
    }
}

/// The product of `values`, provided that it and every partial product are a `u64`.
pub open spec fn unsigned_product(values: Seq<u64>) -> Option<u64>
    decreases values.len(),
{
    if values.len() == 0 {
        Some(1)
    } else {
        match unsigned_product(values.drop_last()) {
            Some(partial) => if partial * values.last() <= u64::MAX {
                Some((partial * values.last()) as u64)
            } else {
                None
            },
            None => None,
        }
    }
}

/// A sum that has no value has none however it goes on.
proof fn lemma_no_sum(values: Seq<i64>, n: int)
    requires
        0 <= n <= values.len(),
        sum(values.take(n)) is None,
    ensures
        sum(values) is None,
    decreases values.len() - n,
{
    if n == values.len() {
        assert(values.take(n) =~= values);
    } else {
        assert(values.take(n + 1).drop_last() =~= values.take(n));
        lemma_no_sum(values, n + 1);
    }
}

/// A product that has no value has none however it goes on.
proof fn lemma_no_product(values: Seq<i64>, n: int)
    requires
        0 <= n <= values.len(),
        product(values.take(n)) is None,
    ensures
        product(values) is None,
    decreases values.len() - n,
{
    if n == values.len() {
        assert(values.take(n) =~= values);
    } else {
        assert(values.take(n + 1).drop_last() =~= values.take(n));
        lemma_no_product(values, n + 1);
    }
}

proof fn lemma_no_unsigned_product(values: Seq<u64>, n: int)
    requires
        0 <= n <= values.len(),
        unsigned_product(values.take(n)) is None,
    ensures
        unsigned_product(values) is None,
    decreases values.len() - n,
{
    if n == values.len() {
        assert(values.take(n) =~= values);
    } else {
        assert(values.take(n + 1).drop_last() =~= values.take(n));
        lemma_no_unsigned_product(values, n + 1);
    }
}

/// Add up `values`.
pub fn checked_sum(values: &[i64]) -> (total: Option<i64>)
    ensures
        total == sum(values@),
{
    let mut total: i64 = 0;
    let mut i: usize = 0;
    assert(values@.take(0) =~= Seq::<i64>::empty());
    while i < values.len()
        invariant
            i <= values@.len(),
            sum(values@.take(i as int)) == Some(total),
        decreases values@.len() - i,
    {
        proof {
            assert(values@.take(i + 1).drop_last() =~= values@.take(i as int));
        }
        match total.checked_add(values[i]) {
            Some(next) => {
                total = next;
            },
            None => {
                proof {
                    lemma_no_sum(values@, i + 1);
                }
                return None;
            },
        }
        i = i + 1;
    }
    assert(values@.take(i as int) =~= values@);
    Some(total)
}

/// Multiply `values`.
pub fn checked_product(values: &[i64]) -> (total: Option<i64>)
    ensures
        total == product(values@),
{
    let mut total: i64 = 1;
    let mut i: usize = 0;
    assert(values@.take(0) =~= Seq::<i64>::empty());
    while i < values.len()
        invariant
            i <= values@.len(),
            product(values@.take(i as int)) == Some(total),
        decreases values@.len() - i,
    {
        proof {
            assert(values@.take(i + 1).drop_last() =~= values@.take(i as int));
        }
        match total.checked_mul(values[i]) {
            Some(next) => {
                total = next;
            },
            None => {
                proof {
                    lemma_no_product(values@, i + 1);
                }
                return None;
            },
        }
        i = i + 1;
    }
    assert(values@.take(i as int) =~= values@);
    Some(total)
}

/// Multiply `values`.
pub fn checked_unsigned_product(values: &[u64]) -> (total: Option<u64>)
    ensures
        total == unsigned_product(values@),
{
    let mut total: u64 = 1;
    let mut i: usize = 0;
    assert(values@.take(0) =~= Seq::<u64>::empty());
    while i < values.len()
        invariant
            i <= values@.len(),
            unsigned_product(values@.take(i as int)) == Some(total),
        decreases values@.len() - i,
    {
        proof {
            assert(values@.take(i + 1).drop_last() =~= values@.take(i as int));
        }
        match total.checked_mul(values[i]) {
            Some(next) => {
                total = next;
            },
            None => {
                proof {
                    lemma_no_unsigned_product(values@, i + 1);
                }
                return None;
            },
        }
        i = i + 1;
    }
    assert(values@.take(i as int) =~= values@);
    Some(total)
}

/// The quotient rounded up is the least integer that is no less than the true quotient.
pub proof fn law_rounded_up_is_the_ceiling(num: int, div: int)
    requires
        div != 0,
    ensures
        div > 0 ==> (quotient_rounded_up(num, div) - 1) * div < num <= quotient_rounded_up(
            num,
            div,
        ) * div,
        div < 0 ==> (quotient_rounded_up(num, div) - 1) * div > num >= quotient_rounded_up(
            num,
            div,
        ) * div,
{
    let n = magnitude(num);
    let d = magnitude(div);
    let k = n / d;
    let r = n % d;
    vstd::arithmetic::div_mod::lemma_fundamental_div_mod(n, d);
    vstd::arithmetic::div_mod::lemma_mod_bound(n, d);
    let q = quotient_rounded_up(num, div);
    assert(d * (k + 1) == d * k + d) by (nonlinear_arith);
    assert(d * (k - 1) == d * k - d) by (nonlinear_arith);
    if (num >= 0) == (div > 0) {
        if div > 0 {
            assert(q * div == d * q && (q - 1) * div == d * (q - 1)) by (nonlinear_arith)
                requires
                    div == d,
            ;
        } else {
            assert(q * div == -(d * q) && (q - 1) * div == -(d * (q - 1))) by (nonlinear_arith)
                requires
                    div == -d,
            ;
        }
    } else {
        assert(q == -k);
        if div > 0 {
            assert(q * div == -(d * k) && (q - 1) * div == -(d * k) - d) by (nonlinear_arith)
                requires
                    div == d,
                    q == -k,
            ;
        } else {
            assert(q * div == d * k && (q - 1) * div == d * k + d) by (nonlinear_arith)
                requires
                    div == -d,
                    q == -k,
            ;
        }
    }
}

/// The quotient times the divisor is the dividend, but for a rest that is smaller than the divisor
/// and lies on the side of the dividend.
pub proof fn law_quotient_leaves_a_small_rest(num: int, div: int)
    requires
        div != 0,
    ensures
        ({
            let rest = num - quotient(num, div) * div;
            let size = if div < 0 {
                -div
            } else {
                div
            };
            &&& num >= 0 ==> 0 <= rest < size
            &&& num < 0 ==> -size < rest <= 0
        }),
{
    let n = magnitude(num);
    let d = magnitude(div);
    let k = n / d;
    let q = quotient(num, div);
    vstd::arithmetic::div_mod::lemma_fundamental_div_mod(n, d);
    vstd::arithmetic::div_mod::lemma_mod_bound(n, d);
    assert(q * div == d * k || q * div == -(d * k)) by (nonlinear_arith)
        requires
            div == d || div == -d,
            q == k || q == -k,
    ;
    if num >= 0 {
        assert(q * div == d * k) by (nonlinear_arith)
            requires
                (div == d && q == k) || (div == -d && q == -k),
        ;
    } else {
        assert(q * div == -(d * k)) by (nonlinear_arith)
            requires
                (div == d && q == -k) || (div == -d && q == k),
        ;
    }
}

/// Two integers of 64 bits have a quotient of 64 bits, but for a divisor of zero and for the least
/// of them divided by minus one.
pub proof fn law_which_quotients_there_are(num: i64, div: i64)
    ensures
        divides(num as int, div as int) <==> div != 0 && !(num == i64::MIN && div == -1),
{
    if div != 0 {
        let n = magnitude(num as int);
        let d = magnitude(div as int);
        assert(0 <= n / d <= n) by (nonlinear_arith)
            requires
                n >= 0,
                d >= 1,
        ;
        if d >= 2 {
            assert(2 * (n / d) <= n) by (nonlinear_arith)
                requires
                    n >= 0,
                    d >= 2,
            ;
        } else {
            assert(n / 1 == n);
        }
    }
}

/// The sum of a list is what adding its elements to zero gives, and it has a value where no partial
/// sum leaves the range of 64 bits.
pub proof fn law_sum_adds_all_up(values: Seq<i64>)
    ensures
        sum(values) matches Some(total) ==> total == values.fold_left(
            0int,
            |before: int, value: i64| before + value,
        ),
        sum(values) is Some <==> forall|k: int|
            0 <= k <= values.len() ==> i64::MIN <= (#[trigger] values.take(k)).fold_left(
                0int,
                |before: int, value: i64| before + value,
            ) <= i64::MAX,
    decreases values.len(),
{
    let add = |before: int, value: i64| before + value;
    reveal(Seq::fold_left);
    if values.len() == 0 {
        assert(values.take(0) =~= values);
    } else {
        let fewer = values.drop_last();
        law_sum_adds_all_up(fewer);
        assert(values.take(values.len() as int) =~= values);
        assert forall|k: int| 0 <= k <= fewer.len() implies #[trigger] values.take(k)
            == fewer.take(k) by {
            assert(values.take(k) =~= fewer.take(k));
        }
        assert(fewer.take(fewer.len() as int) =~= fewer);
        assert(values.fold_left(0int, add) == fewer.fold_left(0int, add) + values.last());
        if sum(values) is Some {
            assert forall|k: int| 0 <= k <= values.len() implies i64::MIN <= (#[trigger] values.take(
                k,
            )).fold_left(0int, add) <= i64::MAX by {
                if k < values.len() {
                    assert(values.take(k) == fewer.take(k));
                }
            }
        }
        if forall|k: int|
            0 <= k <= values.len() ==> i64::MIN <= (#[trigger] values.take(k)).fold_left(0int, add)
                <= i64::MAX {
            assert forall|k: int| 0 <= k <= fewer.len() implies i64::MIN <= (#[trigger] fewer.take(
                k,
            )).fold_left(0int, add) <= i64::MAX by {
                assert(values.take(k) == fewer.take(k));
            }
            assert(values.take(values.len() as int).fold_left(0int, add) <= i64::MAX);
        }
    }
}

/// The product of a list is what multiplying one by its elements gives, and it has a value where no
/// partial product leaves the range of 64 bits.
pub proof fn law_product_multiplies_all(values: Seq<i64>)
    ensures
        product(values) matches Some(total) ==> total == values.fold_left(
            1int,
            |before: int, value: i64| before * value,
        ),
        product(values) is Some <==> forall|k: int|
            0 <= k <= values.len() ==> i64::MIN <= (#[trigger] values.take(k)).fold_left(
                1int,
                |before: int, value: i64| before * value,
            ) <= i64::MAX,
    decreases values.len(),
{
    let mul_up = |before: int, value: i64| before * value;
    reveal(Seq::fold_left);
    if values.len() == 0 {
        assert(values.take(0) =~= values);
    } else {
        let fewer = values.drop_last();
        law_product_multiplies_all(fewer);
        assert(values.take(values.len() as int) =~= values);
        assert forall|k: int| 0 <= k <= fewer.len() implies #[trigger] values.take(k)
            == fewer.take(k) by {
            assert(values.take(k) =~= fewer.take(k));
        }
        assert(fewer.take(fewer.len() as int) =~= fewer);
        assert(values.fold_left(1int, mul_up) == fewer.fold_left(1int, mul_up) * values.last());
        if product(values) is Some {
            assert forall|k: int| 0 <= k <= values.len() implies i64::MIN <= (#[trigger] values.take(
                k,
            )).fold_left(1int, mul_up) <= i64::MAX by {
                if k < values.len() {
                    assert(values.take(k) == fewer.take(k));
                }
            }
        }
        if forall|k: int|
            0 <= k <= values.len() ==> i64::MIN <= (#[trigger] values.take(k)).fold_left(
                1int,
                mul_up,
            ) <= i64::MAX {
            assert forall|k: int| 0 <= k <= fewer.len() implies i64::MIN <= (#[trigger] fewer.take(
                k,
            )).fold_left(1int, mul_up) <= i64::MAX by {
                assert(values.take(k) == fewer.take(k));
            }
            assert(values.take(values.len() as int).fold_left(1int, mul_up) <= i64::MAX);
        }
    }
}

/// The product of a list of sizes is what multiplying one by them gives, and it has a value where no
/// partial product leaves the range of 64 bits.
pub proof fn law_unsigned_product_multiplies_all(values: Seq<u64>)
    ensures
        unsigned_product(values) matches Some(total) ==> total == values.fold_left(
            1int,
            |before: int, value: u64| before * value,
        ),
        unsigned_product(values) is Some <==> forall|k: int|
            0 <= k <= values.len() ==> (#[trigger] values.take(k)).fold_left(
                1int,
                |before: int, value: u64| before * value,
            ) <= u64::MAX,
    decreases values.len(),
{
    let mul_up = |before: int, value: u64| before * value;
    reveal(Seq::fold_left);
    if values.len() == 0 {
        assert(values.take(0) =~= values);
    } else {
        let fewer = values.drop_last();
        law_unsigned_product_multiplies_all(fewer);
        assert(values.take(values.len() as int) =~= values);
        assert forall|k: int| 0 <= k <= fewer.len() implies #[trigger] values.take(k)
            == fewer.take(k) by {
            assert(values.take(k) =~= fewer.take(k));
        }
        assert(fewer.take(fewer.len() as int) =~= fewer);
        assert(values.fold_left(1int, mul_up) == fewer.fold_left(1int, mul_up) * values.last());
        if unsigned_product(values) is Some {
            assert forall|k: int| 0 <= k <= values.len() implies (#[trigger] values.take(
                k,
            )).fold_left(1int, mul_up) <= u64::MAX by {
                if k < values.len() {
                    assert(values.take(k) == fewer.take(k));
                }
            }
        }
        if forall|k: int|
            0 <= k <= values.len() ==> (#[trigger] values.take(k)).fold_left(1int, mul_up)
                <= u64::MAX {
            assert forall|k: int| 0 <= k <= fewer.len() implies (#[trigger] fewer.take(
                k,
            )).fold_left(1int, mul_up) <= u64::MAX by {
                assert(values.take(k) == fewer.take(k));
            }
            assert(values.take(values.len() as int).fold_left(1int, mul_up) <= u64::MAX);
        }
    }
}

} // verus!
