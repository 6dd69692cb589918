//! Shapes of the sliding-window convolution that measures image sharpness.

use vstd::prelude::*;

verus! {

/// Kernel with which the Laplacian of an image is taken, row by row, in
/// units of one.
pub const LAPLACIAN_KERNEL_1: [i8; 9] = [0, 1, 0, 1, -4, 1, 0, 1, 0];

/// A kernel that weights the centre of its window eight times, in units of
/// one.
pub const LAPLACIAN_KERNEL_2: [i8; 9] = [1, 1, 1, 1, 8, 1, 1, 1, 1];

/// Whether a square of side `k` holds `len` weights.
pub open spec fn is_side_of(k: int, len: int) -> bool {
    0 <= k && k * k == len
}

/// The side of a square kernel of `len` weights; `None` where `len` is not
/// a square number.
pub fn kernel_side(len: usize) -> (side: Option<usize>)
    ensures
        side is Some <==> exists|k: int| is_side_of(k, len as int),
        side is Some ==> is_side_of(side->Some_0 as int, len as int),
{
    let mut k: usize = 0;
    let mut square: u128 = 0;
    while square < len as u128
        invariant
            forall|j: int| 0 <= j < k ==> !is_side_of(j, len as int),
            k <= len,
            square == k * k,
        decreases len - k,
    {
        proof {
            assert(k < len) by (nonlinear_arith)
                requires
                    k * k < len,
                    k >= 0,
            ;
            assert((k + 1) * (k + 1) == k * k + 2 * k + 1) by (nonlinear_arith);
        }
        square = square + 2 * (k as u128) + 1;
        k = k + 1;
    }
    if square == len as u128 {
        assert(is_side_of(k as int, len as int));
        Some(k)
    } else {
        proof {
            assert forall|j: int| !is_side_of(j, len as int) by {
                if j >= k {
                    assert(j * j >= k * k) by (nonlinear_arith)
                        requires
                            j >= k,
                            k >= 0,
                    ;
                }
            }
        }
        None
    }
}

/// The number of rows and of columns that remain when a square kernel of
/// side `side` slides over an image of `height` rows and `width` columns
/// without leaving it: on each side half the kernel, rounded down, is lost.
/// `None` where the image is smaller than what is lost.
pub fn convolved_shape(height: usize, width: usize, side: usize) -> (shape: Option<(usize, usize)>)
    ensures
        shape is Some <==> 2 * (side / 2) <= height && 2 * (side / 2) <= width,
        shape is Some ==> shape->Some_0.0 == height - 2 * (side / 2),
        shape is Some ==> shape->Some_0.1 == width - 2 * (side / 2),
{
    let lost: usize = side / 2;
    if lost > height / 2 || lost > width / 2 {
        None
    } else {
        Some((height - 2 * lost, width - 2 * lost))
    }
}

} // verus!
