use dragonfly::focuser::{convolved_shape, kernel_side, LAPLACIAN_KERNEL_1, LAPLACIAN_KERNEL_2};

#[test]
fn square_kernels_have_a_side() {
    assert_eq!(kernel_side(0), Some(0));
    assert_eq!(kernel_side(1), Some(1));
    assert_eq!(kernel_side(9), Some(3));
    assert_eq!(kernel_side(25), Some(5));
    assert_eq!(kernel_side(1_000_000), Some(1000));
    assert_eq!(kernel_side(LAPLACIAN_KERNEL_1.len()), Some(3));
    assert_eq!(kernel_side(LAPLACIAN_KERNEL_2.len()), Some(3));
}

#[test]
fn other_kernels_have_none() {
    for len in [2usize, 3, 8, 10, 24, 26, 999_999] {
        assert_eq!(kernel_side(len), None);
    }
}

#[test]
fn the_kernels_hold_their_weights() {
    assert_eq!(LAPLACIAN_KERNEL_1, [0, 1, 0, 1, -4, 1, 0, 1, 0]);
    assert_eq!(LAPLACIAN_KERNEL_2, [1, 1, 1, 1, 8, 1, 1, 1, 1]);
}

#[test]
fn half_a_kernel_is_lost_on_each_side() {
    assert_eq!(convolved_shape(100, 80, 3), Some((98, 78)));
    assert_eq!(convolved_shape(100, 80, 5), Some((96, 76)));
    assert_eq!(convolved_shape(100, 80, 1), Some((100, 80)));
    assert_eq!(convolved_shape(100, 80, 4), Some((96, 76)));
    assert_eq!(convolved_shape(2, 2, 3), Some((0, 0)));
    assert_eq!(convolved_shape(1, 80, 3), None);
    assert_eq!(convolved_shape(100, 1, 3), None);
    assert_eq!(convolved_shape(usize::MAX, usize::MAX, usize::MAX), Some((1, 1)));
}
