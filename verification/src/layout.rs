//! Integer placement of an image on an output: centring and tiling.

use vstd::prelude::*;

verus! {

/// The offset at which an image of extent `inner` is centred in an output
/// of extent `outer`: half the difference, rounded towards negative
/// infinity (negative where the image is larger than the output).
pub fn centered_offset(outer: u32, inner: u32) -> (res: i64)
    ensures
        res == (outer - inner) / 2,
{
    let d: i64 = outer as i64 - inner as i64;
    if d >= 0 {
        d / 2
    } else {
        let r: i64 = -((1 - d) / 2);
        assert(r == d / 2) by (nonlinear_arith)
            requires
                d < 0,
                r == -((1 - d) / 2),
        ;
        r
    }
}

/// The origins at which copies of a tile of extent `step` cover an output of
/// extent `extent`: every multiple of `step` below `extent`, in increasing
/// order.
pub fn tile_origins(extent: u32, step: u32) -> (res: Vec<u32>)
    requires
        step > 0,
    ensures
        forall|i: int| 0 <= i < res@.len() ==> #[trigger] res@[i] == i * step,
        forall|i: int| 0 <= i < res@.len() ==> #[trigger] res@[i] < extent,
        res@.len() * step >= extent,
{
    let mut res: Vec<u32> = Vec::new();
    let mut at: u64 = 0;
    assert(0 * step == 0) by (nonlinear_arith);
    while at < extent as u64
        invariant
            step > 0,
            at <= extent + step,
            at == res@.len() * step,
            forall|i: int| 0 <= i < res@.len() ==> #[trigger] res@[i] == i * step,
            forall|i: int| 0 <= i < res@.len() ==> #[trigger] res@[i] < extent,
        decreases extent + step - at,
    {
        let ghost n = res@.len();
        res.push(at as u32);
        assert((n + 1) * step == n * step + step) by (nonlinear_arith);
        assert(res@[n as int] == n * step);
        at = at + step as u64;
    }
    res
}

} // verus!
