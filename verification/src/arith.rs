//! The integer combinatorics behind the built-in functions `fact`, `comb`
//! and `perm`: exact factorials, permutation and combination counts over
//! `u128`, with overflow reported rather than wrapped.

use vstd::prelude::*;

verus! {

/// `n!`.
pub open spec fn fact_spec(n: nat) -> nat
    decreases n,
{
    if n == 0 {
        1
    } else {
        n * fact_spec((n - 1) as nat)
    }
}

/// The number of `k`-permutations of `n` things:
/// `n * (n-1) * ... * (n-k+1)`, and `0` where `k > n`.
pub open spec fn perm_spec(n: nat, k: nat) -> nat
    decreases k,
{
    if k == 0 {
        1
    } else if k > n {
        0
    } else {
        perm_spec(n, (k - 1) as nat) * (n - k + 1) as nat
    }
}

/// The number of `k`-combinations of `n` things, by Pascal's rule.
pub open spec fn choose_spec(n: nat, k: nat) -> nat
    decreases n,
{
    if k == 0 {
        1
    } else if n == 0 {
        0
    } else {
        choose_spec((n - 1) as nat, (k - 1) as nat) + choose_spec((n - 1) as nat, k)
    }
}

pub proof fn lemma_fact_pos(n: nat)
    ensures
        fact_spec(n) >= 1,
    decreases n,
{
    if n > 0 {
        lemma_fact_pos((n - 1) as nat);
        assert(n * fact_spec((n - 1) as nat) >= 1) by (nonlinear_arith)
            requires
                n >= 1,
                fact_spec((n - 1) as nat) >= 1,
        ;
    }
}

/// The factorial does not decrease.
pub proof fn lemma_fact_monotone(i: nat, j: nat)
    requires
        i <= j,
    ensures
        fact_spec(i) <= fact_spec(j),
    decreases j,
{
    if i < j {
        lemma_fact_monotone(i, (j - 1) as nat);
        lemma_fact_pos((j - 1) as nat);
        assert(fact_spec((j - 1) as nat) <= j * fact_spec((j - 1) as nat)) by (nonlinear_arith)
            requires
                j >= 1,
                fact_spec((j - 1) as nat) >= 0,
        ;
    }
}

pub proof fn lemma_perm_pos(n: nat, k: nat)
    requires
        k <= n,
    ensures
        perm_spec(n, k) >= 1,
    decreases k,
{
    if k > 0 {
        lemma_perm_pos(n, (k - 1) as nat);
        assert(perm_spec(n, (k - 1) as nat) * (n - k + 1) as nat >= 1) by (nonlinear_arith)
            requires
                perm_spec(n, (k - 1) as nat) >= 1,
                (n - k + 1) as nat >= 1,
        ;
    }
}

/// Taking more things does not shrink the permutation count.
pub proof fn lemma_perm_monotone(n: nat, j: nat, k: nat)
    requires
        j <= k <= n,
    ensures
        perm_spec(n, j) <= perm_spec(n, k),
    decreases k,
{
    if j < k {
        lemma_perm_monotone(n, j, (k - 1) as nat);
        lemma_perm_pos(n, (k - 1) as nat);
        assert(perm_spec(n, (k - 1) as nat) <= perm_spec(n, (k - 1) as nat) * (n - k + 1) as nat)
            by (nonlinear_arith)
            requires
                perm_spec(n, (k - 1) as nat) >= 0,
                (n - k + 1) as nat >= 1,
        ;
    }
}

pub proof fn lemma_choose_n_n(n: nat)
    ensures
        choose_spec(n, n) == 1,
    decreases n,
{
    if n > 0 {
        lemma_choose_n_n((n - 1) as nat);
        lemma_choose_over((n - 1) as nat, n);
    }
}

/// Choosing more things than there are cannot be done.
pub proof fn lemma_choose_over(n: nat, k: nat)
    requires
        k > n,
    ensures
        choose_spec(n, k) == 0,
    decreases n,
{
    if n > 0 {
        lemma_choose_over((n - 1) as nat, (k - 1) as nat);
        lemma_choose_over((n - 1) as nat, k);
    }
}

/// The factorial identity of the combination count:
/// `k! * (n-k)! * C(n, k) == n!`.
pub proof fn lemma_choose_fact(n: nat, k: nat)
    requires
        k <= n,
    ensures
        fact_spec(k) * fact_spec((n - k) as nat) * choose_spec(n, k) == fact_spec(n),
    decreases n,
{
    if k == 0 {
        assert(fact_spec(0) == 1);
        assert(1 * fact_spec(n) * 1 == fact_spec(n)) by (nonlinear_arith);
    } else if k == n {
        lemma_choose_n_n(n);
        assert(fact_spec(n) * 1 * 1 == fact_spec(n)) by (nonlinear_arith);
    } else {
        // 0 < k < n
        let n1 = (n - 1) as nat;
        lemma_choose_fact(n1, (k - 1) as nat);
        lemma_choose_fact(n1, k);
        let fk = fact_spec(k);
        let fk1 = fact_spec((k - 1) as nat);
        let fnk = fact_spec((n - k) as nat);
        let fnk1 = fact_spec((n - k - 1) as nat);
        let c1 = choose_spec(n1, (k - 1) as nat);
        let c2 = choose_spec(n1, k);
        assert(fk == k * fk1);
        assert(fnk == (n - k) * fnk1);
        assert(fk1 * fact_spec((n1 - (k - 1)) as nat) * c1 == fact_spec(n1));
        assert((n1 - (k - 1)) as nat == (n - k) as nat);
        assert(fact_spec((n1 - k) as nat) == fnk1);
        assert(fk * fnk1 * c2 == fact_spec(n1));
        assert(choose_spec(n, k) == c1 + c2);
        assert(fk * fnk * (c1 + c2) == n * fact_spec(n1)) by (nonlinear_arith)
            requires
                fk == k * fk1,
                fnk == (n - k) * fnk1,
                fk1 * fnk * c1 == fact_spec(n1),
                fk * fnk1 * c2 == fact_spec(n1),
                0 < k < n,
        ;
        assert(fact_spec(n) == n * fact_spec(n1));
    }
}

/// The multiplicative step between neighbouring combination counts:
/// `(k+1) * C(n, k+1) == (n-k) * C(n, k)`.
pub proof fn lemma_choose_mult(n: nat, k: nat)
    requires
        k < n,
    ensures
        (k + 1) * choose_spec(n, (k + 1) as nat) == (n - k) * choose_spec(n, k),
{
    lemma_choose_fact(n, k);
    lemma_choose_fact(n, (k + 1) as nat);
    let fk = fact_spec(k);
    let fnk1 = fact_spec((n - k - 1) as nat);
    let c = choose_spec(n, k);
    let c1 = choose_spec(n, (k + 1) as nat);
    lemma_fact_pos(k);
    lemma_fact_pos((n - k - 1) as nat);
    assert(fact_spec((k + 1) as nat) == (k + 1) * fk);
    assert(fact_spec((n - k) as nat) == (n - k) * fnk1);
    assert(fk * ((n - k) * fnk1) * c == ((k + 1) * fk) * fnk1 * c1);
    assert(fk * fnk1 >= 1) by (nonlinear_arith)
        requires
            fk >= 1,
            fnk1 >= 1,
    ;
    assert((fk * fnk1) * ((n - k) * c) == (fk * fnk1) * ((k + 1) * c1)) by (nonlinear_arith)
        requires
            fk * ((n - k) * fnk1) * c == ((k + 1) * fk) * fnk1 * c1,
    ;
    assert((n - k) * c == (k + 1) * c1) by (nonlinear_arith)
        requires
            (fk * fnk1) * ((n - k) * c) == (fk * fnk1) * ((k + 1) * c1),
            fk * fnk1 >= 1,
    ;
}

/// `n!` exactly, or `None` exactly when it does not fit in `u128`.
pub fn factorial(n: u128) -> (r: Option<u128>)
    ensures
        match r {
            Some(v) => v == fact_spec(n as nat),
            None => fact_spec(n as nat) > u128::MAX,
        },
{
    let mut res: u128 = 1;
    let mut i: u128 = 0;
    while i < n
        invariant
            i <= n,
            res == fact_spec(i as nat),
        decreases n - i,
    {
        match res.checked_mul(i + 1) {
            Some(v) => {
                res = v;
                i = i + 1;
            },
            None => {
                proof {
                    assert(fact_spec((i + 1) as nat) == (i + 1) * fact_spec(i as nat));
                    assert((i + 1) * fact_spec(i as nat) == fact_spec(i as nat) * (i + 1))
                        by (nonlinear_arith);
                    lemma_fact_monotone((i + 1) as nat, n as nat);
                }
                return None;
            },
        }
        proof {
            assert(fact_spec(i as nat) == i * fact_spec((i - 1) as nat));
            assert(i * fact_spec((i - 1) as nat) == fact_spec((i - 1) as nat) * i)
                by (nonlinear_arith);
        }
    }
    Some(res)
}

/// The `k`-permutation count of `n` things exactly, or `None` exactly when
/// it does not fit in `u128`.
pub fn permutations(n: u128, k: u128) -> (r: Option<u128>)
    requires
        k <= n,
    ensures
        match r {
            Some(v) => v == perm_spec(n as nat, k as nat),
            None => perm_spec(n as nat, k as nat) > u128::MAX,
        },
{
    let mut res: u128 = 1;
    let mut i: u128 = 0;
    while i < k
        invariant
            i <= k <= n,
            res == perm_spec(n as nat, i as nat),
        decreases k - i,
    {
        match res.checked_mul(n - i) {
            Some(v) => {
                res = v;
                i = i + 1;
            },
            None => {
                proof {
                    assert(perm_spec(n as nat, (i + 1) as nat) == perm_spec(n as nat, i as nat) * (
                    n - i) as nat);
                    lemma_perm_monotone(n as nat, (i + 1) as nat, k as nat);
                }
                return None;
            },
        }
        proof {
            assert(perm_spec(n as nat, i as nat) == perm_spec(n as nat, (i - 1) as nat) * (n - i
                + 1) as nat);
        }
    }
    Some(res)
}

/// The `k`-combination count of `n` things exactly; `None` exactly when
/// some intermediate product `C(n,i) * (n-i)` of the multiplicative scheme
/// does not fit in `u128`.
pub fn combinations(n: u128, k: u128) -> (r: Option<u128>)
    requires
        k <= n,
    ensures
        r is None <==> exists|i: int|
            0 <= i < k && #[trigger] choose_spec(n as nat, i as nat) * (n - i) > u128::MAX,
        r matches Some(v) ==> v == choose_spec(n as nat, k as nat),
{
    let mut res: u128 = 1;
    let mut i: u128 = 0;
    while i < k
        invariant
            i <= k <= n,
            res == choose_spec(n as nat, i as nat),
            forall|j: int|
                0 <= j < i ==> #[trigger] choose_spec(n as nat, j as nat) * (n - j) <= u128::MAX,
        decreases k - i,
    {
        match res.checked_mul(n - i) {
            Some(t) => {
                proof {
                    lemma_choose_mult(n as nat, i as nat);
                    assert(t == (i + 1) * choose_spec(n as nat, (i + 1) as nat));
                    vstd::arithmetic::div_mod::lemma_div_multiples_vanish(
                        choose_spec(n as nat, (i + 1) as nat) as int,
                        i as int + 1,
                    );
                    let iw: int = i as int;
                    assert(choose_spec(n as nat, iw as nat) * (n - iw) <= u128::MAX);
                }
                res = t / (i + 1);
                i = i + 1;
            },
            None => {
                proof {
                    let iw: int = i as int;
                    assert(choose_spec(n as nat, iw as nat) * (n - iw) > u128::MAX);
                    assert(exists|j: int|
                        0 <= j < k && #[trigger] choose_spec(n as nat, j as nat) * (n - j)
                            > u128::MAX);
                }
                return None;
            },
        }
    }
    Some(res)
}

} // verus!