use pirtm::goldilocks::{GoldilocksField, GOLDILOCKS_PRIME};
use pirtm::goldilocks_lanes::{Avx2Goldilocks, SSEGoldilocks};

/// Deterministic xorshift generator standing in for a random source.
struct XorShift(u64);

impl XorShift {
    fn next(&mut self) -> u64 {
        let mut x = self.0;
        x ^= x << 13;
        x ^= x >> 7;
        x ^= x << 17;
        self.0 = x;
        x
    }
}

#[test]
fn test_sse_add() {
    let a_vals = [10, GOLDILOCKS_PRIME - 5];
    let b_vals = [20, 10];
    let a = SSEGoldilocks::load(&a_vals);
    let b = SSEGoldilocks::load(&b_vals);
    let c = SSEGoldilocks::add(a, b);
    let mut c_vals = [0u64; 2];
    c.store(&mut c_vals);

    assert_eq!(c_vals[0], 30);
    assert_eq!(c_vals[1], 5);
}

#[test]
fn test_sse_sub() {
    let a_vals = [30, 5];
    let b_vals = [10, 10];
    let a = SSEGoldilocks::load(&a_vals);
    let b = SSEGoldilocks::load(&b_vals);
    let c = SSEGoldilocks::sub(a, b);
    let mut c_vals = [0u64; 2];
    c.store(&mut c_vals);

    assert_eq!(c_vals[0], 20);
    assert_eq!(c_vals[1], GOLDILOCKS_PRIME - 5);
}

#[test]
fn test_sse_mul() {
    let a_vals = [7, GOLDILOCKS_PRIME - 1];
    let b_vals = [11, 2];
    let a = SSEGoldilocks::load(&a_vals);
    let b = SSEGoldilocks::load(&b_vals);
    let c = SSEGoldilocks::mul(a, b);
    let mut c_vals = [0u64; 2];
    c.store(&mut c_vals);

    assert_eq!(c_vals[0], 77);
    assert_eq!(c_vals[1], GOLDILOCKS_PRIME - 2);
}

const EDGES: [u64; 9] = [
    0,
    1,
    2,
    0xFFFFFFFF,
    0x100000000,
    GOLDILOCKS_PRIME - 1,
    GOLDILOCKS_PRIME - 2,
    0x12345678,
    0xABCDEF01,
];

#[test]
fn test_sse_mul_edge_cases() {
    for &a_val in &EDGES {
        for &b_val in &EDGES {
            let a_sse = SSEGoldilocks::load(&[a_val, b_val]);
            let b_sse = SSEGoldilocks::load(&[b_val, a_val]);
            let c_sse = SSEGoldilocks::mul(a_sse, b_sse);
            let mut c_vals = [0u64; 2];
            c_sse.store(&mut c_vals);

            let fa = GoldilocksField::new(a_val);
            let fb = GoldilocksField::new(b_val);
            let expected = fa.mul(&fb).to_canonical();

            assert_eq!(c_vals[0], expected, "Mul edge case failed: {} * {}", a_val, b_val);
        }
    }
}

#[test]
fn test_sse_differential() {
    let mut rng = XorShift(0x9E37_79B9_7F4A_7C15);
    for _ in 0..100_000 {
        let a_vals = [rng.next(), rng.next()];
        let b_vals = [rng.next(), rng.next()];
        let a_sse = SSEGoldilocks::load(&a_vals);
        let b_sse = SSEGoldilocks::load(&b_vals);

        let mut c_add_vals = [0u64; 2];
        SSEGoldilocks::add(a_sse, b_sse).store(&mut c_add_vals);
        let mut c_sub_vals = [0u64; 2];
        SSEGoldilocks::sub(a_sse, b_sse).store(&mut c_sub_vals);
        let mut c_mul_vals = [0u64; 2];
        SSEGoldilocks::mul(a_sse, b_sse).store(&mut c_mul_vals);

        for i in 0..2 {
            let fa = GoldilocksField::new(a_vals[i]);
            let fb = GoldilocksField::new(b_vals[i]);
            assert_eq!(c_add_vals[i], fa.add(&fb).to_canonical());
            assert_eq!(c_sub_vals[i], fa.sub(&fb).to_canonical());
            assert_eq!(c_mul_vals[i], fa.mul(&fb).to_canonical());
        }
    }
}

#[test]
fn test_sse_butterfly_differential() {
    let mut rng = XorShift(0x2545_F491_4F6C_DD1D);
    for _ in 0..10_000 {
        let u_vals = [rng.next(), rng.next()];
        let v_vals = [rng.next(), rng.next()];
        let w_vals = [rng.next(), rng.next()];

        let u_sse = SSEGoldilocks::load(&u_vals);
        let v_sse = SSEGoldilocks::load(&v_vals);
        let w_sse = SSEGoldilocks::load(&w_vals);

        let (res_u_sse, res_v_sse) = SSEGoldilocks::butterfly(u_sse, v_sse, w_sse);
        let mut res_u_vals = [0u64; 2];
        let mut res_v_vals = [0u64; 2];
        res_u_sse.store(&mut res_u_vals);
        res_v_sse.store(&mut res_v_vals);

        for i in 0..2 {
            let fu = GoldilocksField::new(u_vals[i]);
            let fv = GoldilocksField::new(v_vals[i]);
            let fw = GoldilocksField::new(w_vals[i]);
            let ft = fv.mul(&fw);
            assert_eq!(res_u_vals[i], fu.add(&ft).to_canonical());
            assert_eq!(res_v_vals[i], fu.sub(&ft).to_canonical());
        }
    }
}

#[test]
fn test_avx2_mul_edge_cases() {
    for &a_val in &EDGES {
        for &b_val in &EDGES {
            let a_avx = Avx2Goldilocks::load(&[a_val, b_val, a_val, b_val]);
            let b_avx = Avx2Goldilocks::load(&[b_val, a_val, b_val, a_val]);
            let c_avx = Avx2Goldilocks::mul(a_avx, b_avx);
            let mut c_vals = [0u64; 4];
            c_avx.store(&mut c_vals);

            let fa = GoldilocksField::new(a_val);
            let fb = GoldilocksField::new(b_val);
            let expected = fa.mul(&fb).to_canonical();

            assert_eq!(c_vals[0], expected);
            assert_eq!(c_vals[1], expected);
        }
    }
}

#[test]
fn avx2_lanes_add_sub_and_butterfly() {
    let a = Avx2Goldilocks::load(&[1, 2, GOLDILOCKS_PRIME - 1, u64::MAX]);
    let b = Avx2Goldilocks::load(&[3, 5, 1, 1]);
    let mut out = [0u64; 4];
    Avx2Goldilocks::add(a, b).store(&mut out);
    assert_eq!(out, [4, 7, 0, (u64::MAX % GOLDILOCKS_PRIME) + 1]);
    Avx2Goldilocks::sub(b, a).store(&mut out);
    assert_eq!(out, [2, 3, 2, GOLDILOCKS_PRIME - (u64::MAX % GOLDILOCKS_PRIME) + 1]);
    let (x, y) = Avx2Goldilocks::butterfly(a, b, Avx2Goldilocks::load(&[2, 2, 2, 2]));
    let mut xs = [0u64; 4];
    let mut ys = [0u64; 4];
    x.store(&mut xs);
    y.store(&mut ys);
    assert_eq!(xs[0], 7);
    assert_eq!(ys[0], GOLDILOCKS_PRIME - 5);
    assert_eq!(xs[1], 12);
    assert_eq!(ys[1], GOLDILOCKS_PRIME - 8);
}
