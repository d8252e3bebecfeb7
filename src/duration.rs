use vstd::prelude::*;

verus! {

/// Quotient of `a / b` rounded toward zero, as Rust's integer division does.
pub open spec fn trunc_div(a: int, b: int) -> int {
    if a >= 0 {
        a / b
    } else {
        -((-a) / b)
    }
}

/// Remainder that goes with `trunc_div`: its sign is the sign of `a`.
pub open spec fn trunc_rem(a: int, b: int) -> int {
    a - b * trunc_div(a, b)
}

/// A signed span of time, in whole seconds.
#[derive(Clone, Copy, Debug, PartialEq, Eq, Structural)]
pub struct Duration {
    pub secs: i64,
}

impl Duration {
    pub fn seconds(secs: i64) -> (r: Duration)
        ensures
            r.secs == secs,
    {
        Duration { secs }
    }

    pub fn zero() -> (r: Duration)
        ensures
            r.secs == 0,
    {
        Duration { secs: 0 }
    }

    pub fn num_seconds(&self) -> (r: i64)
        ensures
            r == self.secs,
    {
        self.secs
    }

    /// Whole minutes in the span, rounded toward zero.
    pub fn num_minutes(&self) -> (r: i64)
        ensures
            r == trunc_div(self.secs as int, 60),
    {
        signed_quotient(self.secs, 60)
    }

    /// Whole hours in the span, rounded toward zero.
    pub fn num_hours(&self) -> (r: i64)
        ensures
            r == trunc_div(self.secs as int, 3600),
    {
        signed_quotient(self.secs, 3600)
    }
}

/// The remainder of `a` by `b`, with the sign of `a`, as Rust's `%` gives it.
pub fn signed_remainder(a: i64, b: u64) -> (r: i64)
    requires
        b >= 2,
    ensures
        r == trunc_rem(a as int, b as int),
{
    let q = signed_quotient(a, b);
    assert(a >= 0 ==> 0 <= a - b * q <= a) by (nonlinear_arith)
        requires
            q == trunc_div(a as int, b as int),
            b >= 2,
    ;
    assert(a < 0 ==> a <= a - b * q <= 0) by (nonlinear_arith)
        requires
            q == trunc_div(a as int, b as int),
            b >= 2,
    ;
    let p: i128 = (b as i128) * (q as i128);
    (a as i128 - p) as i64
}

fn signed_quotient(a: i64, b: u64) -> (r: i64)
    requires
        b >= 2,
    ensures
        r == trunc_div(a as int, b as int),
{
    if a >= 0 {
        let q = (a as u64) / b;
        assert(q <= a) by (nonlinear_arith)
            requires
                q == (a as u64) / b,
                b >= 1,
                a >= 0,
        ;
        q as i64
    } else {
        let m: u64 = (0i128 - a as i128) as u64;
        let q = m / b;
        assert(q * 2 <= m) by (nonlinear_arith)
            requires
                q == m / b,
                b >= 2,
        ;
        assert(m as int == -(a as int));
        0i64 - (q as i64)
    }
}

} // verus!
