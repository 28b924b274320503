use vstd::prelude::*;

verus! {

/// Smallest multiple of `multiple` that is at least `num`.
pub open spec fn next_multiple(num: nat, multiple: nat) -> nat
    recommends
        multiple > 0,
{
    if num % multiple == 0 {
        num
    } else {
        (num - num % multiple + multiple) as nat
    }
}

/// Rounds `num` up to the next multiple of `multiple`.
pub fn round_to_next_multiple(num: usize, multiple: usize) -> (r: usize)
    requires
        multiple > 0,
        next_multiple(num as nat, multiple as nat) <= usize::MAX,
    ensures
        r == next_multiple(num as nat, multiple as nat),
        r % multiple == 0,
        num <= r,
        r < num + multiple,
{
    let remainder: usize = num % multiple;
    proof {
        assert(remainder <= num) by (nonlinear_arith)
            requires
                remainder == num % multiple,
                multiple > 0,
        ;
    }
    if remainder == 0 {
        num
    } else {
        proof {
            assert((num - remainder + multiple) % (multiple as int) == 0) by (nonlinear_arith)
                requires
                    remainder == num % multiple,
                    multiple > 0,
            ;
        }
        num - remainder + multiple
    }
}

/// Rounds `num` down to the previous multiple of `multiple`.
pub fn round_to_previous_multiple(num: usize, multiple: usize) -> (r: usize)
    requires
        multiple > 0,
    ensures
        r == num - num % multiple,
        r % multiple == 0,
        r <= num,
        num < r + multiple,
{
    let remainder: usize = num % multiple;
    proof {
        assert(remainder <= num) by (nonlinear_arith)
            requires
                remainder == num % multiple,
                multiple > 0,
        ;
        assert((num - remainder) % (multiple as int) == 0) by (nonlinear_arith)
            requires
                remainder == num % multiple,
                multiple > 0,
        ;
    }
    num - remainder
}

} // verus!
