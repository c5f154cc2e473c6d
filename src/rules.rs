//! Cursor arithmetic that wraps round a range.
use vstd::prelude::*;

verus! {

/// `(value + 1) mod max`.
pub open spec fn spec_wrap_incr(value: nat, max: nat) -> nat {
    ((value as int + 1) % (max as int)) as nat
}

/// `(value - 1) mod max`, taken as the non-negative remainder.
pub open spec fn spec_wrap_decr(value: nat, max: nat) -> nat {
    ((value as int - 1) % (max as int)) as nat
}

/// The value after `value` in `0..max`, going from `max - 1` back to 0.
pub fn wrap_incr(value: usize, max: usize) -> (r: usize)
    requires
        max > 0,
    ensures
        r == spec_wrap_incr(value as nat, max as nat),
        r < max,
{
    let v = value % max;
    assert(v < max);
    assert((v as int + 1) % (max as int) == (value as int + 1) % (max as int)) by (nonlinear_arith)
        requires
            v == value % max,
            max > 0,
    ;
    if v + 1 == max {
        assert((max as int) % (max as int) == 0) by (nonlinear_arith)
            requires
                max > 0,
        ;
        0
    } else {
        assert((v as int + 1) % (max as int) == v + 1) by (nonlinear_arith)
            requires
                v + 1 < max,
        ;
        v + 1
    }
}

/// The value before `value` in `0..max`, going from 0 back to `max - 1`.
pub fn wrap_decr(value: usize, max: usize) -> (r: usize)
    requires
        max > 0,
    ensures
        r == spec_wrap_decr(value as nat, max as nat),
        r < max,
{
    let v = value % max;
    assert(v < max);
    assert((v as int - 1) % (max as int) == (value as int - 1) % (max as int)) by (nonlinear_arith)
        requires
            v == value % max,
            max > 0,
    ;
    if v == 0 {
        assert((-1int) % (max as int) == max - 1) by (nonlinear_arith)
            requires
                max > 0,
        ;
        max - 1
    } else {
        assert((v as int - 1) % (max as int) == v - 1) by (nonlinear_arith)
            requires
                0 < v < max,
        ;
        v - 1
    }
}

} // verus!
