use vstd::prelude::*;

verus! {

/// The permutation of the numbers below 256 that scatters lattice points,
/// written out twice so that a sum of two entries' worth still indexes it.
pub const P: [u8; 512] = [
    151, 160, 137, 91, 90, 15, 131, 13, 201, 95, 96, 53, 194, 233, 7, 225,
    140, 36, 103, 30, 69, 142, 8, 99, 37, 240, 21, 10, 23, 190, 6, 148,
    247, 120, 234, 75, 0, 26, 197, 62, 94, 252, 219, 203, 117, 35, 11, 32,
    57, 177, 33, 88, 237, 149, 56, 87, 174, 20, 125, 136, 171, 168, 68, 175,
    74, 165, 71, 134, 139, 48, 27, 166, 77, 146, 158, 231, 83, 111, 229, 122,
    60, 211, 133, 230, 220, 105, 92, 41, 55, 46, 245, 40, 244, 102, 143, 54,
    65, 25, 63, 161, 1, 216, 80, 73, 209, 76, 132, 187, 208, 89, 18, 169,
    200, 196, 135, 130, 116, 188, 159, 86, 164, 100, 109, 198, 173, 186, 3, 64,
    52, 217, 226, 250, 124, 123, 5, 202, 38, 147, 118, 126, 255, 82, 85, 212,
    207, 206, 59, 227, 47, 16, 58, 17, 182, 189, 28, 42, 223, 183, 170, 213,
    119, 248, 152, 2, 44, 154, 163, 70, 221, 153, 101, 155, 167, 43, 172, 9,
    129, 22, 39, 253, 19, 98, 108, 110, 79, 113, 224, 232, 178, 185, 112, 104,
    218, 246, 97, 228, 251, 34, 242, 193, 238, 210, 144, 12, 191, 179, 162, 241,
    81, 51, 145, 235, 249, 14, 239, 107, 49, 192, 214, 31, 181, 199, 106, 157,
    184, 84, 204, 176, 115, 121, 50, 45, 127, 4, 150, 254, 138, 236, 205, 93,
    222, 114, 67, 29, 24, 72, 243, 141, 128, 195, 78, 66, 215, 61, 156, 180,
    151, 160, 137, 91, 90, 15, 131, 13, 201, 95, 96, 53, 194, 233, 7, 225,
    140, 36, 103, 30, 69, 142, 8, 99, 37, 240, 21, 10, 23, 190, 6, 148,
    247, 120, 234, 75, 0, 26, 197, 62, 94, 252, 219, 203, 117, 35, 11, 32,
    57, 177, 33, 88, 237, 149, 56, 87, 174, 20, 125, 136, 171, 168, 68, 175,
    74, 165, 71, 134, 139, 48, 27, 166, 77, 146, 158, 231, 83, 111, 229, 122,
    60, 211, 133, 230, 220, 105, 92, 41, 55, 46, 245, 40, 244, 102, 143, 54,
    65, 25, 63, 161, 1, 216, 80, 73, 209, 76, 132, 187, 208, 89, 18, 169,
    200, 196, 135, 130, 116, 188, 159, 86, 164, 100, 109, 198, 173, 186, 3, 64,
    52, 217, 226, 250, 124, 123, 5, 202, 38, 147, 118, 126, 255, 82, 85, 212,
    207, 206, 59, 227, 47, 16, 58, 17, 182, 189, 28, 42, 223, 183, 170, 213,
    119, 248, 152, 2, 44, 154, 163, 70, 221, 153, 101, 155, 167, 43, 172, 9,
    129, 22, 39, 253, 19, 98, 108, 110, 79, 113, 224, 232, 178, 185, 112, 104,
    218, 246, 97, 228, 251, 34, 242, 193, 238, 210, 144, 12, 191, 179, 162, 241,
    81, 51, 145, 235, 249, 14, 239, 107, 49, 192, 214, 31, 181, 199, 106, 157,
    184, 84, 204, 176, 115, 121, 50, 45, 127, 4, 150, 254, 138, 236, 205, 93,
    222, 114, 67, 29, 24, 72, 243, 141, 128, 195, 78, 66, 215, 61, 156, 180,
];

/// The entry of the permutation table at `i`.
pub fn hash(i: usize) -> (h: usize)
    requires
        i < 512,
    ensures
        h == P@[i as int],
        h < 256,
{
    P[i] as usize
}

/// The residue of `x` modulo `m`, which is never negative.
pub fn modulus(x: i32, m: i32) -> (r: usize)
    requires
        m > 0,
    ensures
        r == (x as int) % (m as int),
        r < m,
{
    let a: i32 = x % m;
    proof {
        if x < 0 {
            let n = -(x as int);
            let d = m as int;
            let k = n / d;
            let q = n % d;
            vstd::arithmetic::div_mod::lemma_fundamental_div_mod(n, d);
            if q == 0 {
                assert(x as int == (-k) * d + 0) by (nonlinear_arith)
                    requires
                        n == d * k + q,
                        q == 0,
                        n == -(x as int),
                ;
                vstd::arithmetic::div_mod::lemma_fundamental_div_mod_converse(x as int, d, -k, 0);
            } else {
                assert(x as int == (-k - 1) * d + (d - q)) by (nonlinear_arith)
                    requires
                        n == d * k + q,
                        n == -(x as int),
                ;
                vstd::arithmetic::div_mod::lemma_fundamental_div_mod_converse(
                    x as int,
                    d,
                    -k - 1,
                    d - q,
                );
            }
        }
    }
    if a < 0 {
        (a + m) as usize
    } else {
        a as usize
    }
}

/// The steps from the first corner of a simplex to its second and third
/// corner, along the three axes of the lattice.
#[derive(Debug, Clone, Copy, PartialEq, Eq, Structural)]
pub struct Corners {
    pub i1: usize,
    pub j1: usize,
    pub k1: usize,
    pub i2: usize,
    pub j2: usize,
    pub k2: usize,
}

/// The corners of the simplex that holds a point, from how the point's
/// three offsets within its cell compare: the second corner is one step
/// along the axis of the greatest offset, the third one more step along
/// the axis of the middle one.
pub open spec fn simplex_corners(x_ge_y: bool, y_ge_z: bool, x_ge_z: bool) -> Corners {
    if x_ge_y {
        if y_ge_z {
            Corners { i1: 1, j1: 0, k1: 0, i2: 1, j2: 1, k2: 0 }
        } else if x_ge_z {
            Corners { i1: 1, j1: 0, k1: 0, i2: 1, j2: 0, k2: 1 }
        } else {
            Corners { i1: 0, j1: 0, k1: 1, i2: 1, j2: 0, k2: 1 }
        }
    } else {
        if !y_ge_z {
            Corners { i1: 0, j1: 0, k1: 1, i2: 0, j2: 1, k2: 1 }
        } else if !x_ge_z {
            Corners { i1: 0, j1: 1, k1: 0, i2: 0, j2: 1, k2: 1 }
        } else {
            Corners { i1: 0, j1: 1, k1: 0, i2: 1, j2: 1, k2: 0 }
        }
    }
}

pub fn corners(x_ge_y: bool, y_ge_z: bool, x_ge_z: bool) -> (c: Corners)
    ensures
        c == simplex_corners(x_ge_y, y_ge_z, x_ge_z),
{
    if x_ge_y {
        if y_ge_z {
            Corners { i1: 1, j1: 0, k1: 0, i2: 1, j2: 1, k2: 0 }
        } else if x_ge_z {
            Corners { i1: 1, j1: 0, k1: 0, i2: 1, j2: 0, k2: 1 }
        } else {
            Corners { i1: 0, j1: 0, k1: 1, i2: 1, j2: 0, k2: 1 }
        }
    } else {
        if !y_ge_z {
            Corners { i1: 0, j1: 0, k1: 1, i2: 0, j2: 1, k2: 1 }
        } else if !x_ge_z {
            Corners { i1: 0, j1: 1, k1: 0, i2: 0, j2: 1, k2: 1 }
        } else {
            Corners { i1: 0, j1: 1, k1: 0, i2: 1, j2: 1, k2: 0 }
        }
    }
}

/// The second corner lies one step from the first, the third one step
/// further, and no step goes back.
pub proof fn lemma_corners_step(x_ge_y: bool, y_ge_z: bool, x_ge_z: bool)
    ensures
        ({
            let c = simplex_corners(x_ge_y, y_ge_z, x_ge_z);
            &&& c.i1 + c.j1 + c.k1 == 1
            &&& c.i2 + c.j2 + c.k2 == 2
            &&& c.i1 <= c.i2 <= 1
            &&& c.j1 <= c.j2 <= 1
            &&& c.k1 <= c.k2 <= 1
        }),
{
}

/// The table entry that the lattice point `(i, j, k)` is scattered to.
pub open spec fn scatter(i: int, j: int, k: int) -> int {
    P@[i + P@[j + P@[k]]] as int
}

/// The gradient numbers of the four corners of the simplex whose first
/// corner is the lattice point `(i, j, k)`.
pub fn gradient_indices(i: i32, j: i32, k: i32, c: Corners) -> (g: (usize, usize, usize, usize))
    requires
        c.i1 <= 1 && c.j1 <= 1 && c.k1 <= 1,
        c.i2 <= 1 && c.j2 <= 1 && c.k2 <= 1,
    ensures
        g.0 == scatter(i as int % 256, j as int % 256, k as int % 256),
        g.1 == scatter(i as int % 256 + c.i1, j as int % 256 + c.j1, k as int % 256 + c.k1),
        g.2 == scatter(i as int % 256 + c.i2, j as int % 256 + c.j2, k as int % 256 + c.k2),
        g.3 == scatter(i as int % 256 + 1, j as int % 256 + 1, k as int % 256 + 1),
        g.0 < 256 && g.1 < 256 && g.2 < 256 && g.3 < 256,
{
    let ii: usize = modulus(i, 256);
    let jj: usize = modulus(j, 256);
    let kk: usize = modulus(k, 256);
    let g0: usize = hash(ii + hash(jj + hash(kk)));
    let g1: usize = hash(ii + c.i1 + hash(jj + c.j1 + hash(kk + c.k1)));
    let g2: usize = hash(ii + c.i2 + hash(jj + c.j2 + hash(kk + c.k2)));
    let g3: usize = hash(ii + 1 + hash(jj + 1 + hash(kk + 1)));
    (g0, g1, g2, g3)
}

/// An axis of space.
#[derive(Debug, Clone, Copy, PartialEq, Eq, Structural)]
pub enum Axis {
    X,
    Y,
    Z,
}

/// A gradient direction: the sum of two coordinates, each taken as it is or negated.
#[derive(Debug, Clone, Copy, PartialEq, Eq, Structural)]
pub struct Gradient {
    pub first: Axis,
    pub first_negated: bool,
    pub second: Axis,
    pub second_negated: bool,
}

/// The gradient direction that belongs to a gradient number, by its residue modulo 16.
pub open spec fn gradient(hash: usize) -> Gradient {
    let h = hash % 16;
    if h == 0 {
        Gradient { first: Axis::X, first_negated: false, second: Axis::Y, second_negated: false }
    } else if h == 1 {
        Gradient { first: Axis::X, first_negated: true, second: Axis::Y, second_negated: false }
    } else if h == 2 {
        Gradient { first: Axis::X, first_negated: false, second: Axis::Y, second_negated: true }
    } else if h == 3 {
        Gradient { first: Axis::X, first_negated: true, second: Axis::Y, second_negated: true }
    } else if h == 4 {
        Gradient { first: Axis::X, first_negated: false, second: Axis::Z, second_negated: false }
    } else if h == 5 {
        Gradient { first: Axis::X, first_negated: true, second: Axis::Z, second_negated: false }
    } else if h == 6 {
        Gradient { first: Axis::X, first_negated: false, second: Axis::Z, second_negated: true }
    } else if h == 7 {
        Gradient { first: Axis::X, first_negated: true, second: Axis::Z, second_negated: true }
    } else if h == 8 {
        Gradient { first: Axis::Y, first_negated: false, second: Axis::Z, second_negated: false }
    } else if h == 9 || h == 13 {
        Gradient { first: Axis::Y, first_negated: true, second: Axis::Z, second_negated: false }
    } else if h == 10 {
        Gradient { first: Axis::Y, first_negated: false, second: Axis::Z, second_negated: true }
    } else if h == 11 || h == 15 {
        Gradient { first: Axis::Y, first_negated: true, second: Axis::Z, second_negated: true }
    } else if h == 12 {
        Gradient { first: Axis::Y, first_negated: false, second: Axis::X, second_negated: false }
    } else {
        Gradient { first: Axis::Y, first_negated: false, second: Axis::X, second_negated: true }
    }
}

pub fn grad(hash: usize) -> (g: Gradient)
    ensures
        g == gradient(hash),
{
    let h: usize = hash % 16;
    let (first, first_negated, second, second_negated) = match h {
        0 => (Axis::X, false, Axis::Y, false),
        1 => (Axis::X, true, Axis::Y, false),
        2 => (Axis::X, false, Axis::Y, true),
        3 => (Axis::X, true, Axis::Y, true),
        4 => (Axis::X, false, Axis::Z, false),
        5 => (Axis::X, true, Axis::Z, false),
        6 => (Axis::X, false, Axis::Z, true),
        7 => (Axis::X, true, Axis::Z, true),
        8 => (Axis::Y, false, Axis::Z, false),
        9 => (Axis::Y, true, Axis::Z, false),
        10 => (Axis::Y, false, Axis::Z, true),
        11 => (Axis::Y, true, Axis::Z, true),
        12 => (Axis::Y, false, Axis::X, false),
        13 => (Axis::Y, true, Axis::Z, false),
        14 => (Axis::Y, false, Axis::X, true),
        _ => (Axis::Y, true, Axis::Z, true),
    };
    Gradient { first, first_negated, second, second_negated }
}

} // verus!
