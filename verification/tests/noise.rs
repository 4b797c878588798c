use ray_tracer::noise::{corners, grad, gradient_indices, hash, modulus, Axis, Corners, P};

#[test]
fn hash_reads_the_table() {
    assert_eq!(hash(0), 151);
    assert_eq!(hash(1), 160);
    assert_eq!(hash(255), 180);
    assert_eq!(hash(256), 151);
    assert_eq!(hash(511), 180);
}

#[test]
fn table_is_a_permutation_written_twice() {
    let mut seen = [false; 256];
    for i in 0..256 {
        assert_eq!(P[i], P[i + 256]);
        assert!(!seen[P[i] as usize]);
        seen[P[i] as usize] = true;
    }
}

#[test]
fn modulus_is_never_negative() {
    assert_eq!(modulus(0, 256), 0);
    assert_eq!(modulus(5, 256), 5);
    assert_eq!(modulus(256, 256), 0);
    assert_eq!(modulus(257, 256), 1);
    assert_eq!(modulus(-1, 256), 255);
    assert_eq!(modulus(-256, 256), 0);
    assert_eq!(modulus(-257, 256), 255);
    assert_eq!(modulus(i32::MIN, 256), 0);
    assert_eq!(modulus(i32::MAX, 256), 255);
    assert_eq!(modulus(-7, 3), 2);
    assert_eq!(modulus(i32::MIN, i32::MAX), i32::MAX as usize - 1);
}

#[test]
fn corners_follow_the_greatest_offset() {
    let c = |i1, j1, k1, i2, j2, k2| Corners {
        i1,
        j1,
        k1,
        i2,
        j2,
        k2,
    };
    // x >= y >= z
    assert_eq!(corners(true, true, true), c(1, 0, 0, 1, 1, 0));
    // x >= z > y
    assert_eq!(corners(true, false, true), c(1, 0, 0, 1, 0, 1));
    // z > x >= y
    assert_eq!(corners(true, false, false), c(0, 0, 1, 1, 0, 1));
    // z > y > x
    assert_eq!(corners(false, false, false), c(0, 0, 1, 0, 1, 1));
    // y >= z > x
    assert_eq!(corners(false, true, false), c(0, 1, 0, 0, 1, 1));
    // y > x >= z
    assert_eq!(corners(false, true, true), c(0, 1, 0, 1, 1, 0));
}

#[test]
fn gradient_indices_scatter_the_corners() {
    let c = corners(true, true, true);
    let (g0, g1, g2, g3) = gradient_indices(0, 0, 0, c);
    assert_eq!(g0, hash(hash(hash(0))));
    assert_eq!(g1, hash(1 + hash(hash(0))));
    assert_eq!(g2, hash(1 + hash(1 + hash(0))));
    assert_eq!(g3, hash(1 + hash(1 + hash(1))));
    assert_eq!((g0, g1, g2, g3), (36, 103, 110, 195));

    let (h0, _, _, h3) = gradient_indices(-1, 255, 511, c);
    assert_eq!(h0, hash(255 + hash(255 + hash(255))));
    assert_eq!(h3, hash(256 + hash(256 + hash(256))));
    assert_eq!(gradient_indices(256, -256, 512, c), (g0, g1, g2, g3));
}

#[test]
fn gradients_by_number() {
    let g = grad(0);
    assert_eq!((g.first, g.first_negated, g.second, g.second_negated), (Axis::X, false, Axis::Y, false));
    let g = grad(3);
    assert_eq!((g.first, g.first_negated, g.second, g.second_negated), (Axis::X, true, Axis::Y, true));
    let g = grad(6);
    assert_eq!((g.first, g.first_negated, g.second, g.second_negated), (Axis::X, false, Axis::Z, true));
    let g = grad(9);
    assert_eq!((g.first, g.first_negated, g.second, g.second_negated), (Axis::Y, true, Axis::Z, false));
    let g = grad(12);
    assert_eq!((g.first, g.first_negated, g.second, g.second_negated), (Axis::Y, false, Axis::X, false));
    let g = grad(14);
    assert_eq!((g.first, g.first_negated, g.second, g.second_negated), (Axis::Y, false, Axis::X, true));
    assert_eq!(grad(13), grad(9));
    assert_eq!(grad(15), grad(11));
    assert_eq!(grad(16 + 5), grad(5));
    assert_eq!(grad(255), grad(15));
}
