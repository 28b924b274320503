use vstd::prelude::*;

verus! {

/// `n` is a power of two: 1, 2, 4, 8, ...
pub open spec fn is_pow2(n: nat) -> bool
    decreases n,
{
    if n == 0 {
        false
    } else if n == 1 {
        true
    } else {
        n % 2 == 0 && is_pow2(n / 2)
    }
}

/// Smallest multiple of `alignment` that is at least `address`.
pub open spec fn aligned_up(address: nat, alignment: nat) -> nat
    recommends
        alignment > 0,
{
    if address % alignment == 0 {
        address
    } else {
        (address + (alignment - address % alignment)) as nat
    }
}

/// Largest multiple of `alignment` that is at most `address`.
pub open spec fn aligned_down(address: nat, alignment: nat) -> nat
    recommends
        alignment > 0,
{
    (address - address % alignment) as nat
}

/// A power of two divides every power of two at least as large.
pub proof fn lemma_pow2_divides(a: nat, b: nat)
    requires
        is_pow2(a),
        is_pow2(b),
        a <= b,
    ensures
        b % a == 0,
    decreases b,
{
    if a == b || a == 1 {
    } else {
        lemma_pow2_divides(a / 2, b / 2);
        let k = (b / 2) / (a / 2);
        vstd::arithmetic::div_mod::lemma_fundamental_div_mod((b / 2) as int, (a / 2) as int);
        assert(b == k * a) by (nonlinear_arith)
            requires
                b / 2 == (a / 2) * k,
                a % 2 == 0,
                b % 2 == 0,
        ;
        vstd::arithmetic::div_mod::lemma_mod_multiples_basic(k as int, a as int);
    }
}

/// Facts about rounding up to a multiple.
pub proof fn lemma_aligned_up(x: nat, alignment: nat)
    requires
        alignment > 0,
    ensures
        aligned_up(x, alignment) % alignment == 0,
        x <= aligned_up(x, alignment) < x + alignment,
        x > 0 ==> aligned_up(x, alignment) >= alignment,
{
    let a = aligned_up(x, alignment);
    assert(a % alignment == 0 && x <= a < x + alignment) by (nonlinear_arith)
        requires
            alignment > 0,
            a == if x % alignment == 0 { x } else { (x + (alignment - x % alignment)) as nat },
    ;
    assert(x > 0 ==> a >= alignment) by (nonlinear_arith)
        requires
            alignment > 0,
            a % alignment == 0,
            x <= a,
    ;
}

/// Facts about rounding down to a multiple.
pub proof fn lemma_aligned_down(x: nat, alignment: nat)
    requires
        alignment > 0,
    ensures
        aligned_down(x, alignment) % alignment == 0,
        aligned_down(x, alignment) <= x < aligned_down(x, alignment) + alignment,
{
    let a = aligned_down(x, alignment);
    assert(a % alignment == 0 && a <= x < a + alignment) by (nonlinear_arith)
        requires
            alignment > 0,
            a == (x - x % alignment) as nat,
    ;
}

/// Checks whether `num` is a power of two.
pub fn is_pot(num: usize) -> (r: bool)
    ensures
        r == is_pow2(num as nat),
{
    if num == 0 {
        return false;
    }
    let mut n: usize = num;
    while n > 1 && n % 2 == 0
        invariant
            n >= 1,
            is_pow2(n as nat) == is_pow2(num as nat),
        decreases n,
    {
        n = n / 2;
    }
    n == 1
}

/// Checks whether `address` is a multiple of `alignment`; every address is
/// aligned to 0.
pub fn is_aligned_to(address: usize, alignment: usize) -> (r: bool)
    ensures
        r == (alignment == 0 || address % alignment == 0),
{
    alignment == 0 || address % alignment == 0
}

/// Moves `address` up to the next multiple of `alignment`.
pub fn align_top(address: usize, alignment: usize) -> (r: usize)
    requires
        is_pow2(alignment as nat),
        address + alignment - 1 <= usize::MAX,
    ensures
        r == aligned_up(address as nat, alignment as nat),
        r % alignment == 0,
        address <= r,
        r < address + alignment,
{
    let remainder: usize = address % alignment;
    if remainder == 0 {
        address
    } else {
        proof {
            assert((address + (alignment - remainder)) % (alignment as int) == 0) by (nonlinear_arith)
                requires
                    remainder == address % alignment,
                    alignment > 0,
            ;
        }
        address + (alignment - remainder)
    }
}

/// Moves `address` down to the previous multiple of `alignment`.
pub fn align_bottom(address: usize, alignment: usize) -> (r: usize)
    requires
        is_pow2(alignment as nat),
    ensures
        r == aligned_down(address as nat, alignment as nat),
        r % alignment == 0,
        r <= address,
        address < r + alignment,
{
    let remainder: usize = address % alignment;
    proof {
        assert(remainder <= address && (address - remainder) % (alignment as int) == 0)
            by (nonlinear_arith)
            requires
                remainder == address % alignment,
                alignment > 0,
        ;
    }
    address - remainder
}

} // verus!
