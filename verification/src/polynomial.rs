use vstd::prelude::*;
use vstd::arithmetic::div_mod::{lemma_mod_bound, lemma_mul_mod_noop_general, lemma_small_mod};
use vstd::arithmetic::power::{pow, lemma0_pow, lemma1_pow, lemma_pow_mod_noop, lemma_pow0, lemma_pow1, lemma_pow_adds, lemma_pow_multiplies, lemma_square_is_pow2};
use vstd::arithmetic::power2::{pow2, lemma_pow2_pos, lemma_pow2_unfold, lemma_pow2_strictly_increases};
use vstd::arithmetic::div_mod::{lemma_add_mod_noop, lemma_add_mod_noop_right, lemma_sub_mod_noop, lemma_sub_mod_noop_right, lemma_mod_multiples_vanish, lemma_mod_twice, lemma_div_denominator, lemma_fundamental_div_mod_converse, lemma_mod_breakdown, lemma_mod_mod};
use vstd::arithmetic::mul::{lemma_mul_is_associative, lemma_mul_is_commutative, lemma_mul_is_distributive_add};
use crate::goldilocks::{canonical, fv, modp, GoldilocksField, GOLDILOCKS_PRIME};

verus! {

/// `b^e` modulo the Goldilocks prime, by repeated squaring; a definition that the
/// verifier can evaluate on concrete values.
#[verifier::opaque]
spec fn pow_mod(b: nat, e: nat) -> nat
    decreases e,
{
    if e == 0 {
        1
    } else {
        let h = pow_mod(b, e / 2);
        let h2 = (h * h) % 0xffff_ffff_0000_0001nat;
        if e % 2 == 1 {
            (h2 * b) % 0xffff_ffff_0000_0001nat
        } else {
            h2
        }
    }
}

proof fn lemma_pow_mod(b: nat, e: nat)
    ensures
        pow_mod(b, e) == pow(b as int, e) % (GOLDILOCKS_PRIME as int),
    decreases e,
{
    reveal(pow_mod);
    let p = GOLDILOCKS_PRIME as int;
    if e == 0 {
        lemma_pow0(b as int);
        lemma_small_mod(1, p as nat);
    } else {
        let h = e / 2;
        lemma_pow_mod(b, h);
        let ph = pow(b as int, h);
        lemma_square_is_pow2(ph);
        lemma_pow_multiplies(b as int, h, 2);
        assert(pow(ph, 2) == ph * ph);
        assert(h * 2 == 2 * h);
        assert(pow(b as int, 2 * h) == ph * ph);
        lemma_mul_mod_noop_general(ph, ph, p);
        let h2 = (pow_mod(b, h) * pow_mod(b, h)) % 0xffff_ffff_0000_0001nat;
        assert(h2 == (ph * ph) % p);
        if e % 2 == 1 {
            assert(e == 2 * h + 1);
            lemma_pow_adds(b as int, 2 * h, 1);
            lemma_pow1(b as int);
            assert(pow(b as int, e) == (ph * ph) * b);
            lemma_mul_mod_noop_general(ph * ph, b as int, p);
            lemma_mod_bound(b as int, p);
            assert(((h2 * b) as int) % p == (((ph * ph) % p) * (b as int)) % p);
            assert((((ph * ph) % p) * (b as int)) % p == (((ph * ph) % p) * ((b as int) % p)) % p) by {
                lemma_mul_mod_noop_general((ph * ph) % p, b as int, p);
                vstd::arithmetic::div_mod::lemma_mod_twice(ph * ph, p);
            }
        } else {
            assert(e == 2 * h);
        }
    }
}

/// One doubling step of [`pow_mod`], with the halved exponent and the square written out.
proof fn lemma_pow_mod_step(b: nat, e: nat, v: nat, sq: nat)
    requires
        pow_mod(b, e) == v,
        sq == (v * v) % 0xffff_ffff_0000_0001nat,
    ensures
        pow_mod(b, 2 * e) == sq,
        pow_mod(b, 2 * e + 1) == (sq * b) % 0xffff_ffff_0000_0001nat,
{
    reveal(pow_mod);
    if e > 0 {
        assert((2 * e) / 2 == e);
        assert((2 * e) % 2 == 0);
        assert(pow_mod(b, 2 * e) == (pow_mod(b, e) * pow_mod(b, e)) % 0xffff_ffff_0000_0001nat);
    } else {
        assert(v == 1);
        assert(v * v == 1);
        assert(sq == 1nat % 0xffff_ffff_0000_0001nat);
    }
    assert((2 * e + 1) / 2 == e);
    assert((2 * e + 1) % 2 == 1);
}

proof fn lemma_seven_chain_0()
    requires
        pow_mod(7, 0x0) == 0x1,
    ensures
        pow_mod(7, 0xffff) == 0xa86793b70b1704a5,
{
    assert(pow_mod(7, 0x1) == 0x7) by {
        lemma_pow_mod_step(7, 0x0, 0x1, 0x1);
    }
    assert(pow_mod(7, 0x3) == 0x157) by {
        lemma_pow_mod_step(7, 0x1, 0x7, 0x31);
    }
    assert(pow_mod(7, 0x7) == 0xc90f7) by {
        lemma_pow_mod_step(7, 0x3, 0x157, 0x1cb91);
    }
    assert(pow_mod(7, 0xf) == 0x45160b7a437) by {
        lemma_pow_mod_step(7, 0x7, 0xc90f7, 0x9de93ece51);
    }
    assert(pow_mod(7, 0x1f) == 0x99afae240f49187b) by {
        lemma_pow_mod_step(7, 0xf, 0x45160b7a437, 0x15f486976fe5deed);
    }
    assert(pow_mod(7, 0x3f) == 0xa8974fb5a161a54e) by {
        lemma_pow_mod_step(7, 0x1f, 0x99afae240f49187b, 0xcef10b6260328555);
    }
    assert(pow_mod(7, 0x7f) == 0x61400096e777dba3) by {
        lemma_pow_mod_step(7, 0x3f, 0xa8974fb5a161a54e, 0xc4c00014d7ec8d18);
    }
    assert(pow_mod(7, 0xff) == 0x70c2c3d51532b015) by {
        lemma_pow_mod_step(7, 0x7f, 0x61400096e777dba3, 0x101bd2d54c2bd003);
    }
    assert(pow_mod(7, 0x1ff) == 0x246c0ceea861a57f) by {
        lemma_pow_mod_step(7, 0xff, 0x70c2c3d51532b015, 0x977d266aaa5717a5);
    }
    assert(pow_mod(7, 0x3ff) == 0x7288f8ac3eb147db) by {
        lemma_pow_mod_step(7, 0x1ff, 0x246c0ceea861a57f, 0x105cb5cf76ab9c8d);
    }
    assert(pow_mod(7, 0x7ff) == 0x312d46fa4985c61b) by {
        lemma_pow_mod_step(7, 0x3ff, 0x7288f8ac3eb147db, 0xbde1e590c15c40e0);
    }
    assert(pow_mod(7, 0xfff) == 0xa64705c6baaba93f) by {
        lemma_pow_mod_step(7, 0x7ff, 0x312d46fa4985c61b, 0xaa0a2564f61885e5);
    }
    assert(pow_mod(7, 0x1fff) == 0x8ba3d55d2139aa43) by {
        lemma_pow_mod_step(7, 0xfff, 0xa64705c6baaba93f, 0x81a9b0c3bb9a860a);
    }
    assert(pow_mod(7, 0x3fff) == 0x91851167eeceda71) by {
        lemma_pow_mod_step(7, 0x1fff, 0x8ba3d55d2139aa43, 0x395c270eb466b17e);
    }
    assert(pow_mod(7, 0x7fff) == 0x397267bbb0d470dc) by {
        lemma_pow_mod_step(7, 0x3fff, 0x91851167eeceda71, 0x51597c883dd534b2);
    }
    assert(pow_mod(7, 0xffff) == 0xa86793b70b1704a5) by {
        lemma_pow_mod_step(7, 0x7fff, 0x397267bbb0d470dc, 0x61335e3e6f4c6e61);
    }
}

proof fn lemma_seven_chain_1()
    requires
        pow_mod(7, 0xffff) == 0xa86793b70b1704a5,
    ensures
        pow_mod(7, 0xffffffff) == 0x185629dcda58878c,
{
    assert(pow_mod(7, 0x1ffff) == 0x3c0bda2ffb163853) by {
        lemma_pow_mod_step(7, 0xffff, 0xa86793b70b1704a5, 0x893fa9923de9a55);
    }
    assert(pow_mod(7, 0x3ffff) == 0x2de90873f8dcc0c) by {
        lemma_pow_mod_step(7, 0x1ffff, 0x3c0bda2ffb163853, 0xb7445dc976cb1d27);
    }
    assert(pow_mod(7, 0x7ffff) == 0x8bfabfdd7ea6212d) by {
        lemma_pow_mod_step(7, 0x3ffff, 0x2de90873f8dcc0c, 0xcadaadb136aa04be);
    }
    assert(pow_mod(7, 0xfffff) == 0x19c0e0fb7b446dca) by {
        lemma_pow_mod_step(7, 0x7ffff, 0x8bfabfdd7ea6212d, 0x4cd26948362e58d4);
    }
    assert(pow_mod(7, 0x1fffff) == 0x69d6953bb77f86f7) by {
        lemma_pow_mod_step(7, 0xfffff, 0x19c0e0fb7b446dca, 0x33b0f0bf3ec91348);
    }
    assert(pow_mod(7, 0x3fffff) == 0x6c1ee88c45c2b408) by {
        lemma_pow_mod_step(7, 0x1fffff, 0x69d6953bb77f86f7, 0xa1bb45ca531bd094);
    }
    assert(pow_mod(7, 0x7fffff) == 0x51e7d705a299e049) by {
        lemma_pow_mod_step(7, 0x3fffff, 0x6c1ee88c45c2b408, 0xe7211eb6ce15fb79);
    }
    assert(pow_mod(7, 0xffffff) == 0x7c006a86cb2e1b6a) by {
        lemma_pow_mod_step(7, 0x7fffff, 0x51e7d705a299e049, 0x7f6dc612d3e203eb);
    }
    assert(pow_mod(7, 0x1ffffff) == 0xb5b66fc4e2a5e852) by {
        lemma_pow_mod_step(7, 0xffffff, 0x7c006a86cb2e1b6a, 0xf5633488fbce8ee8);
    }
    assert(pow_mod(7, 0x3ffffff) == 0x9c09c794643052c2) by {
        lemma_pow_mod_step(7, 0x1ffffff, 0xb5b66fc4e2a5e852, 0x840165a70e500bd3);
    }
    assert(pow_mod(7, 0x7ffffff) == 0x1ca370dddbd4b593) by {
        lemma_pow_mod_step(7, 0x3ffffff, 0x9c09c794643052c2, 0xdf85101ed642f55f);
    }
    assert(pow_mod(7, 0xfffffff) == 0xb54faaefeebfd11e) by {
        lemma_pow_mod_step(7, 0x7ffffff, 0x1ca370dddbd4b593, 0x3e79186b46adb029);
    }
    assert(pow_mod(7, 0x1fffffff) == 0xe6479c575768caac) by {
        lemma_pow_mod_step(7, 0xfffffff, 0xb54faaefeebfd11e, 0x20e5a89ec3581cf4);
    }
    assert(pow_mod(7, 0x3fffffff) == 0x514fd349847c85d1) by {
        lemma_pow_mod_step(7, 0x1fffffff, 0xe6479c575768caac, 0xc2791e2e5c11c9fa);
    }
    assert(pow_mod(7, 0x7fffffff) == 0xd95051a31cf4a6ef) by {
        lemma_pow_mod_step(7, 0x3fffffff, 0x514fd349847c85d1, 0x8cc254cdbafe60fe);
    }
    assert(pow_mod(7, 0xffffffff) == 0x185629dcda58878c) by {
        lemma_pow_mod_step(7, 0x7fffffff, 0xd95051a31cf4a6ef, 0xdee7bcd58ce8135e);
    }
}

proof fn lemma_seven_chain_2()
    requires
        pow_mod(7, 0xffffffff) == 0x185629dcda58878c,
    ensures
        pow_mod(7, 0xffffffff0000) == 0x54df9630bf79450e,
{
    assert(pow_mod(7, 0x1fffffffe) == 0x400a7f755588e659) by {
        lemma_pow_mod_step(7, 0xffffffff, 0x185629dcda58878c, 0x400a7f755588e659);
    }
    assert(pow_mod(7, 0x3fffffffc) == 0x7e9bd009b86a0845) by {
        lemma_pow_mod_step(7, 0x1fffffffe, 0x400a7f755588e659, 0x7e9bd009b86a0845);
    }
    assert(pow_mod(7, 0x7fffffff8) == 0xdfa8c93ba46d2666) by {
        lemma_pow_mod_step(7, 0x3fffffffc, 0x7e9bd009b86a0845, 0xdfa8c93ba46d2666);
    }
    assert(pow_mod(7, 0xffffffff0) == 0x59049500004a4485) by {
        lemma_pow_mod_step(7, 0x7fffffff8, 0xdfa8c93ba46d2666, 0x59049500004a4485);
    }
    assert(pow_mod(7, 0x1fffffffe0) == 0x10d78dd8915a171d) by {
        lemma_pow_mod_step(7, 0xffffffff0, 0x59049500004a4485, 0x10d78dd8915a171d);
    }
    assert(pow_mod(7, 0x3fffffffc0) == 0xed41d05b78d6e286) by {
        lemma_pow_mod_step(7, 0x1fffffffe0, 0x10d78dd8915a171d, 0xed41d05b78d6e286);
    }
    assert(pow_mod(7, 0x7fffffff80) == 0x4bbaf5976ecfefd8) by {
        lemma_pow_mod_step(7, 0x3fffffffc0, 0xed41d05b78d6e286, 0x4bbaf5976ecfefd8);
    }
    assert(pow_mod(7, 0xffffffff00) == 0x86cdcc31c307e171) by {
        lemma_pow_mod_step(7, 0x7fffffff80, 0x4bbaf5976ecfefd8, 0x86cdcc31c307e171);
    }
    assert(pow_mod(7, 0x1fffffffe00) == 0xea9d5a1336fbc98b) by {
        lemma_pow_mod_step(7, 0xffffffff00, 0x86cdcc31c307e171, 0xea9d5a1336fbc98b);
    }
    assert(pow_mod(7, 0x3fffffffc00) == 0x4b2a18ade67246b5) by {
        lemma_pow_mod_step(7, 0x1fffffffe00, 0xea9d5a1336fbc98b, 0x4b2a18ade67246b5);
    }
    assert(pow_mod(7, 0x7fffffff800) == 0xf502aef532322654) by {
        lemma_pow_mod_step(7, 0x3fffffffc00, 0x4b2a18ade67246b5, 0xf502aef532322654);
    }
    assert(pow_mod(7, 0xffffffff000) == 0x30ba2ecd5e93e76d) by {
        lemma_pow_mod_step(7, 0x7fffffff800, 0xf502aef532322654, 0x30ba2ecd5e93e76d);
    }
    assert(pow_mod(7, 0x1fffffffe000) == 0xfbd41c6b8caa3302) by {
        lemma_pow_mod_step(7, 0xffffffff000, 0x30ba2ecd5e93e76d, 0xfbd41c6b8caa3302);
    }
    assert(pow_mod(7, 0x3fffffffc000) == 0x81281a7b05f9beac) by {
        lemma_pow_mod_step(7, 0x1fffffffe000, 0xfbd41c6b8caa3302, 0x81281a7b05f9beac);
    }
    assert(pow_mod(7, 0x7fffffff8000) == 0xabd0a6e8aa3d8a0e) by {
        lemma_pow_mod_step(7, 0x3fffffffc000, 0x81281a7b05f9beac, 0xabd0a6e8aa3d8a0e);
    }
    assert(pow_mod(7, 0xffffffff0000) == 0x54df9630bf79450e) by {
        lemma_pow_mod_step(7, 0x7fffffff8000, 0xabd0a6e8aa3d8a0e, 0x54df9630bf79450e);
    }
}

proof fn lemma_seven_chain_3()
    requires
        pow_mod(7, 0xffffffff0000) == 0x54df9630bf79450e,
    ensures
        pow_mod(7, 0x7fffffff80000000) == 0xffffffff00000000,
        pow_mod(7, 0xffffffff00000000) == 0x1,
{
    assert(pow_mod(7, 0x1fffffffe0000) == 0xf6b2cffe2306baac) by {
        lemma_pow_mod_step(7, 0xffffffff0000, 0x54df9630bf79450e, 0xf6b2cffe2306baac);
    }
    assert(pow_mod(7, 0x3fffffffc0000) == 0xe0ee099310bba1e2) by {
        lemma_pow_mod_step(7, 0x1fffffffe0000, 0xf6b2cffe2306baac, 0xe0ee099310bba1e2);
    }
    assert(pow_mod(7, 0x7fffffff80000) == 0x1544ef2335d17997) by {
        lemma_pow_mod_step(7, 0x3fffffffc0000, 0xe0ee099310bba1e2, 0x1544ef2335d17997);
    }
    assert(pow_mod(7, 0xffffffff00000) == 0xf2c35199959dfcb6) by {
        lemma_pow_mod_step(7, 0x7fffffff80000, 0x1544ef2335d17997, 0xf2c35199959dfcb6);
    }
    assert(pow_mod(7, 0x1fffffffe00000) == 0x653b4801da1c8cf) by {
        lemma_pow_mod_step(7, 0xffffffff00000, 0xf2c35199959dfcb6, 0x653b4801da1c8cf);
    }
    assert(pow_mod(7, 0x3fffffffc00000) == 0x9d8f2ad78bfed972) by {
        lemma_pow_mod_step(7, 0x1fffffffe00000, 0x653b4801da1c8cf, 0x9d8f2ad78bfed972);
    }
    assert(pow_mod(7, 0x7fffffff800000) == 0x1905d02a5c411f4e) by {
        lemma_pow_mod_step(7, 0x3fffffffc00000, 0x9d8f2ad78bfed972, 0x1905d02a5c411f4e);
    }
    assert(pow_mod(7, 0xffffffff000000) == 0xbf79143ce60ca966) by {
        lemma_pow_mod_step(7, 0x7fffffff800000, 0x1905d02a5c411f4e, 0xbf79143ce60ca966);
    }
    assert(pow_mod(7, 0x1fffffffe000000) == 0xf80007ff08000001) by {
        lemma_pow_mod_step(7, 0xffffffff000000, 0xbf79143ce60ca966, 0xf80007ff08000001);
    }
    assert(pow_mod(7, 0x3fffffffc000000) == 0x8000000000) by {
        lemma_pow_mod_step(7, 0x1fffffffe000000, 0xf80007ff08000001, 0x8000000000);
    }
    assert(pow_mod(7, 0x7fffffff8000000) == 0x3fffffffc000) by {
        lemma_pow_mod_step(7, 0x3fffffffc000000, 0x8000000000, 0x3fffffffc000);
    }
    assert(pow_mod(7, 0xffffffff0000000) == 0xefffffff00000001) by {
        lemma_pow_mod_step(7, 0x7fffffff8000000, 0x3fffffffc000, 0xefffffff00000001);
    }
    assert(pow_mod(7, 0x1fffffffe0000000) == 0xfffffffeff000001) by {
        lemma_pow_mod_step(7, 0xffffffff0000000, 0xefffffff00000001, 0xfffffffeff000001);
    }
    assert(pow_mod(7, 0x3fffffffc0000000) == 0x1000000000000) by {
        lemma_pow_mod_step(7, 0x1fffffffe0000000, 0xfffffffeff000001, 0x1000000000000);
    }
    assert(pow_mod(7, 0x7fffffff80000000) == 0xffffffff00000000) by {
        lemma_pow_mod_step(7, 0x3fffffffc0000000, 0x1000000000000, 0xffffffff00000000);
    }
    assert(pow_mod(7, 0xffffffff00000000) == 0x1) by {
        lemma_pow_mod_step(7, 0x7fffffff80000000, 0xffffffff00000000, 0x1);
    }
}

proof fn lemma_two_chain_0()
    requires
        pow_mod(2, 0x0) == 0x1,
    ensures
        pow_mod(2, 0xffff) == 0x8000000000000000,
{
    assert(pow_mod(2, 0x1) == 0x2) by {
        lemma_pow_mod_step(2, 0x0, 0x1, 0x1);
    }
    assert(pow_mod(2, 0x3) == 0x8) by {
        lemma_pow_mod_step(2, 0x1, 0x2, 0x4);
    }
    assert(pow_mod(2, 0x7) == 0x80) by {
        lemma_pow_mod_step(2, 0x3, 0x8, 0x40);
    }
    assert(pow_mod(2, 0xf) == 0x8000) by {
        lemma_pow_mod_step(2, 0x7, 0x80, 0x4000);
    }
    assert(pow_mod(2, 0x1f) == 0x80000000) by {
        lemma_pow_mod_step(2, 0xf, 0x8000, 0x40000000);
    }
    assert(pow_mod(2, 0x3f) == 0x8000000000000000) by {
        lemma_pow_mod_step(2, 0x1f, 0x80000000, 0x4000000000000000);
    }
    assert(pow_mod(2, 0x7f) == 0xfffffffe80000001) by {
        lemma_pow_mod_step(2, 0x3f, 0x8000000000000000, 0xfffffffec0000001);
    }
    assert(pow_mod(2, 0xff) == 0x8000000000000000) by {
        lemma_pow_mod_step(2, 0x7f, 0xfffffffe80000001, 0x4000000000000000);
    }
    assert(pow_mod(2, 0x1ff) == 0xfffffffe80000001) by {
        lemma_pow_mod_step(2, 0xff, 0x8000000000000000, 0xfffffffec0000001);
    }
    assert(pow_mod(2, 0x3ff) == 0x8000000000000000) by {
        lemma_pow_mod_step(2, 0x1ff, 0xfffffffe80000001, 0x4000000000000000);
    }
    assert(pow_mod(2, 0x7ff) == 0xfffffffe80000001) by {
        lemma_pow_mod_step(2, 0x3ff, 0x8000000000000000, 0xfffffffec0000001);
    }
    assert(pow_mod(2, 0xfff) == 0x8000000000000000) by {
        lemma_pow_mod_step(2, 0x7ff, 0xfffffffe80000001, 0x4000000000000000);
    }
    assert(pow_mod(2, 0x1fff) == 0xfffffffe80000001) by {
        lemma_pow_mod_step(2, 0xfff, 0x8000000000000000, 0xfffffffec0000001);
    }
    assert(pow_mod(2, 0x3fff) == 0x8000000000000000) by {
        lemma_pow_mod_step(2, 0x1fff, 0xfffffffe80000001, 0x4000000000000000);
    }
    assert(pow_mod(2, 0x7fff) == 0xfffffffe80000001) by {
        lemma_pow_mod_step(2, 0x3fff, 0x8000000000000000, 0xfffffffec0000001);
    }
    assert(pow_mod(2, 0xffff) == 0x8000000000000000) by {
        lemma_pow_mod_step(2, 0x7fff, 0xfffffffe80000001, 0x4000000000000000);
    }
}

proof fn lemma_two_chain_1()
    requires
        pow_mod(2, 0xffff) == 0x8000000000000000,
    ensures
        pow_mod(2, 0xffffffff) == 0x8000000000000000,
{
    assert(pow_mod(2, 0x1ffff) == 0xfffffffe80000001) by {
        lemma_pow_mod_step(2, 0xffff, 0x8000000000000000, 0xfffffffec0000001);
    }
    assert(pow_mod(2, 0x3ffff) == 0x8000000000000000) by {
        lemma_pow_mod_step(2, 0x1ffff, 0xfffffffe80000001, 0x4000000000000000);
    }
    assert(pow_mod(2, 0x7ffff) == 0xfffffffe80000001) by {
        lemma_pow_mod_step(2, 0x3ffff, 0x8000000000000000, 0xfffffffec0000001);
    }
    assert(pow_mod(2, 0xfffff) == 0x8000000000000000) by {
        lemma_pow_mod_step(2, 0x7ffff, 0xfffffffe80000001, 0x4000000000000000);
    }
    assert(pow_mod(2, 0x1fffff) == 0xfffffffe80000001) by {
        lemma_pow_mod_step(2, 0xfffff, 0x8000000000000000, 0xfffffffec0000001);
    }
    assert(pow_mod(2, 0x3fffff) == 0x8000000000000000) by {
        lemma_pow_mod_step(2, 0x1fffff, 0xfffffffe80000001, 0x4000000000000000);
    }
    assert(pow_mod(2, 0x7fffff) == 0xfffffffe80000001) by {
        lemma_pow_mod_step(2, 0x3fffff, 0x8000000000000000, 0xfffffffec0000001);
    }
    assert(pow_mod(2, 0xffffff) == 0x8000000000000000) by {
        lemma_pow_mod_step(2, 0x7fffff, 0xfffffffe80000001, 0x4000000000000000);
    }
    assert(pow_mod(2, 0x1ffffff) == 0xfffffffe80000001) by {
        lemma_pow_mod_step(2, 0xffffff, 0x8000000000000000, 0xfffffffec0000001);
    }
    assert(pow_mod(2, 0x3ffffff) == 0x8000000000000000) by {
        lemma_pow_mod_step(2, 0x1ffffff, 0xfffffffe80000001, 0x4000000000000000);
    }
    assert(pow_mod(2, 0x7ffffff) == 0xfffffffe80000001) by {
        lemma_pow_mod_step(2, 0x3ffffff, 0x8000000000000000, 0xfffffffec0000001);
    }
    assert(pow_mod(2, 0xfffffff) == 0x8000000000000000) by {
        lemma_pow_mod_step(2, 0x7ffffff, 0xfffffffe80000001, 0x4000000000000000);
    }
    assert(pow_mod(2, 0x1fffffff) == 0xfffffffe80000001) by {
        lemma_pow_mod_step(2, 0xfffffff, 0x8000000000000000, 0xfffffffec0000001);
    }
    assert(pow_mod(2, 0x3fffffff) == 0x8000000000000000) by {
        lemma_pow_mod_step(2, 0x1fffffff, 0xfffffffe80000001, 0x4000000000000000);
    }
    assert(pow_mod(2, 0x7fffffff) == 0xfffffffe80000001) by {
        lemma_pow_mod_step(2, 0x3fffffff, 0x8000000000000000, 0xfffffffec0000001);
    }
    assert(pow_mod(2, 0xffffffff) == 0x8000000000000000) by {
        lemma_pow_mod_step(2, 0x7fffffff, 0xfffffffe80000001, 0x4000000000000000);
    }
}

proof fn lemma_two_chain_2()
    requires
        pow_mod(2, 0xffffffff) == 0x8000000000000000,
    ensures
        pow_mod(2, 0xffffffff0000) == 0x1,
{
    assert(pow_mod(2, 0x1fffffffe) == 0xfffffffec0000001) by {
        lemma_pow_mod_step(2, 0xffffffff, 0x8000000000000000, 0xfffffffec0000001);
    }
    assert(pow_mod(2, 0x3fffffffc) == 0x1000000000000000) by {
        lemma_pow_mod_step(2, 0x1fffffffe, 0xfffffffec0000001, 0x1000000000000000);
    }
    assert(pow_mod(2, 0x7fffffff8) == 0xfffffffeff000001) by {
        lemma_pow_mod_step(2, 0x3fffffffc, 0x1000000000000000, 0xfffffffeff000001);
    }
    assert(pow_mod(2, 0xffffffff0) == 0x1000000000000) by {
        lemma_pow_mod_step(2, 0x7fffffff8, 0xfffffffeff000001, 0x1000000000000);
    }
    assert(pow_mod(2, 0x1fffffffe0) == 0xffffffff00000000) by {
        lemma_pow_mod_step(2, 0xffffffff0, 0x1000000000000, 0xffffffff00000000);
    }
    assert(pow_mod(2, 0x3fffffffc0) == 0x1) by {
        lemma_pow_mod_step(2, 0x1fffffffe0, 0xffffffff00000000, 0x1);
    }
    assert(pow_mod(2, 0x7fffffff80) == 0x1) by {
        lemma_pow_mod_step(2, 0x3fffffffc0, 0x1, 0x1);
    }
    assert(pow_mod(2, 0xffffffff00) == 0x1) by {
        lemma_pow_mod_step(2, 0x7fffffff80, 0x1, 0x1);
    }
    assert(pow_mod(2, 0x1fffffffe00) == 0x1) by {
        lemma_pow_mod_step(2, 0xffffffff00, 0x1, 0x1);
    }
    assert(pow_mod(2, 0x3fffffffc00) == 0x1) by {
        lemma_pow_mod_step(2, 0x1fffffffe00, 0x1, 0x1);
    }
    assert(pow_mod(2, 0x7fffffff800) == 0x1) by {
        lemma_pow_mod_step(2, 0x3fffffffc00, 0x1, 0x1);
    }
    assert(pow_mod(2, 0xffffffff000) == 0x1) by {
        lemma_pow_mod_step(2, 0x7fffffff800, 0x1, 0x1);
    }
    assert(pow_mod(2, 0x1fffffffe000) == 0x1) by {
        lemma_pow_mod_step(2, 0xffffffff000, 0x1, 0x1);
    }
    assert(pow_mod(2, 0x3fffffffc000) == 0x1) by {
        lemma_pow_mod_step(2, 0x1fffffffe000, 0x1, 0x1);
    }
    assert(pow_mod(2, 0x7fffffff8000) == 0x1) by {
        lemma_pow_mod_step(2, 0x3fffffffc000, 0x1, 0x1);
    }
    assert(pow_mod(2, 0xffffffff0000) == 0x1) by {
        lemma_pow_mod_step(2, 0x7fffffff8000, 0x1, 0x1);
    }
}

proof fn lemma_two_chain_3()
    requires
        pow_mod(2, 0xffffffff0000) == 0x1,
    ensures
        pow_mod(2, 0xffffffff00000000) == 0x1,
{
    assert(pow_mod(2, 0x1fffffffe0000) == 0x1) by {
        lemma_pow_mod_step(2, 0xffffffff0000, 0x1, 0x1);
    }
    assert(pow_mod(2, 0x3fffffffc0000) == 0x1) by {
        lemma_pow_mod_step(2, 0x1fffffffe0000, 0x1, 0x1);
    }
    assert(pow_mod(2, 0x7fffffff80000) == 0x1) by {
        lemma_pow_mod_step(2, 0x3fffffffc0000, 0x1, 0x1);
    }
    assert(pow_mod(2, 0xffffffff00000) == 0x1) by {
        lemma_pow_mod_step(2, 0x7fffffff80000, 0x1, 0x1);
    }
    assert(pow_mod(2, 0x1fffffffe00000) == 0x1) by {
        lemma_pow_mod_step(2, 0xffffffff00000, 0x1, 0x1);
    }
    assert(pow_mod(2, 0x3fffffffc00000) == 0x1) by {
        lemma_pow_mod_step(2, 0x1fffffffe00000, 0x1, 0x1);
    }
    assert(pow_mod(2, 0x7fffffff800000) == 0x1) by {
        lemma_pow_mod_step(2, 0x3fffffffc00000, 0x1, 0x1);
    }
    assert(pow_mod(2, 0xffffffff000000) == 0x1) by {
        lemma_pow_mod_step(2, 0x7fffffff800000, 0x1, 0x1);
    }
    assert(pow_mod(2, 0x1fffffffe000000) == 0x1) by {
        lemma_pow_mod_step(2, 0xffffffff000000, 0x1, 0x1);
    }
    assert(pow_mod(2, 0x3fffffffc000000) == 0x1) by {
        lemma_pow_mod_step(2, 0x1fffffffe000000, 0x1, 0x1);
    }
    assert(pow_mod(2, 0x7fffffff8000000) == 0x1) by {
        lemma_pow_mod_step(2, 0x3fffffffc000000, 0x1, 0x1);
    }
    assert(pow_mod(2, 0xffffffff0000000) == 0x1) by {
        lemma_pow_mod_step(2, 0x7fffffff8000000, 0x1, 0x1);
    }
    assert(pow_mod(2, 0x1fffffffe0000000) == 0x1) by {
        lemma_pow_mod_step(2, 0xffffffff0000000, 0x1, 0x1);
    }
    assert(pow_mod(2, 0x3fffffffc0000000) == 0x1) by {
        lemma_pow_mod_step(2, 0x1fffffffe0000000, 0x1, 0x1);
    }
    assert(pow_mod(2, 0x7fffffff80000000) == 0x1) by {
        lemma_pow_mod_step(2, 0x3fffffffc0000000, 0x1, 0x1);
    }
    assert(pow_mod(2, 0xffffffff00000000) == 0x1) by {
        lemma_pow_mod_step(2, 0x7fffffff80000000, 0x1, 0x1);
    }
}

/// Powers of 7 and of 2 modulo the prime that the transforms rely on: `7^(p-1) = 1`,
/// `7^((p-1)/2) = p - 1` (so 7 generates the 2-power roots of unity) and `2^(p-1) = 1`.
/// Each chain squares its way up the exponent's binary digits.
proof fn lemma_power_facts()
    ensures
        pow(7, (GOLDILOCKS_PRIME - 1) as nat) % (GOLDILOCKS_PRIME as int) == 1,
        pow(7, ((GOLDILOCKS_PRIME - 1) / 2) as nat) % (GOLDILOCKS_PRIME as int) == GOLDILOCKS_PRIME - 1,
        pow(2, (GOLDILOCKS_PRIME - 1) as nat) % (GOLDILOCKS_PRIME as int) == 1,
{
    assert(pow_mod(7, 0) == 1) by {
        reveal(pow_mod);
    }
    lemma_seven_chain_0();
    lemma_seven_chain_1();
    lemma_seven_chain_2();
    lemma_seven_chain_3();
    assert(pow_mod(2, 0) == 1) by {
        reveal(pow_mod);
    }
    lemma_two_chain_0();
    lemma_two_chain_1();
    lemma_two_chain_2();
    lemma_two_chain_3();
    lemma_pow_mod(7, 0xffffffff00000000);
    lemma_pow_mod(7, 0x7fffffff80000000);
    lemma_pow_mod(2, 0xffffffff00000000);
}

/// `n` is a power of two.
pub open spec fn power_of_two(n: nat) -> bool {
    exists|k: nat| pow2(k) == n
}

/// The exponent `k` with `2^k == n`, for a power of two `n`.
pub open spec fn log2_of(n: nat) -> nat {
    choose|k: nat| pow2(k) == n
}

/// `x` read as `bits` binary digits, lowest first, and written back in reverse order.
pub open spec fn rev_bits(x: nat, bits: nat) -> nat
    decreases bits,
{
    if bits == 0 {
        0
    } else {
        (x % 2) * pow2((bits - 1) as nat) + rev_bits(x / 2, (bits - 1) as nat)
    }
}

proof fn lemma_pow2_zero()
    ensures
        pow2(0) == 1,
{
    lemma_pow0(2);
}

proof fn lemma_pow2_injective(a: nat, b: nat)
    requires
        pow2(a) == pow2(b),
    ensures
        a == b,
{
    if a < b {
        lemma_pow2_strictly_increases(a, b);
    } else if b < a {
        lemma_pow2_strictly_increases(b, a);
    }
}

proof fn lemma_log2_of(k: nat)
    ensures
        log2_of(pow2(k)) == k,
        power_of_two(pow2(k)),
{
    assert(pow2(k) == pow2(k));
    let c = log2_of(pow2(k));
    lemma_pow2_injective(c, k);
}

proof fn lemma_rev_bound(x: nat, bits: nat)
    ensures
        rev_bits(x, bits) < pow2(bits),
    decreases bits,
{
    if bits == 0 {
        lemma_pow2_zero();
    } else {
        let k = (bits - 1) as nat;
        lemma_rev_bound(x / 2, k);
        lemma_pow2_unfold(bits);
        assert((x % 2) * pow2(k) <= pow2(k)) by (nonlinear_arith)
            requires
                x % 2 <= 1,
        ;
    }
}

/// The top digit of `x` becomes the lowest digit of its reversal.
proof fn lemma_rev_top(x: nat, bits: nat)
    requires
        bits >= 1,
    ensures
        rev_bits(x, bits) == 2 * rev_bits(x % pow2((bits - 1) as nat), (bits - 1) as nat) + (x / pow2(
            (bits - 1) as nat,
        )) % 2,
    decreases bits,
{
    let k = (bits - 1) as nat;
    if bits == 1 {
        lemma_pow2_zero();
        assert(x % 1 == 0);
        assert(x / 1 == x);
        assert(rev_bits(x / 2, 0) == 0);
        assert(rev_bits(x, 1) == (x % 2) * 1 + 0);
    } else {
        let pk = pow2(k);
        let pk1 = pow2((k - 1) as nat);
        lemma_pow2_unfold(k);
        lemma_pow2_pos((k - 1) as nat);
        lemma_rev_top(x / 2, k);
        // (x % 2^k) % 2 == x % 2
        lemma_mod_mod(x as int, 2, pk1 as int);
        // x % 2^k == 2 * ((x / 2) % 2^(k-1)) + x % 2
        lemma_mod_breakdown(x as int, 2, pk1 as int);
        let a = (x / 2) % pk1;
        lemma_fundamental_div_mod_converse((x % pk) as int, 2, a as int, (x % 2) as int);
        // (x / 2) / 2^(k-1) == x / 2^k
        lemma_div_denominator(x as int, 2, pk1 as int);
        assert(rev_bits(x % pk, k) == ((x % pk) % 2) * pk1 + rev_bits((x % pk) / 2, (k - 1) as nat));
        assert(rev_bits(x, bits) == (x % 2) * pk + rev_bits(x / 2, k));
        assert((x % 2) * pk == 2 * ((x % 2) * pk1)) by (nonlinear_arith)
            requires
                pk == 2 * pk1,
        ;
    }
}

proof fn lemma_rev_involution(x: nat, bits: nat)
    requires
        x < pow2(bits),
    ensures
        rev_bits(rev_bits(x, bits), bits) == x,
    decreases bits,
{
    if bits == 0 {
        lemma_pow2_zero();
    } else {
        let k = (bits - 1) as nat;
        let pk = pow2(k);
        lemma_pow2_unfold(bits);
        lemma_pow2_pos(k);
        let r = rev_bits(x / 2, k);
        lemma_rev_bound(x / 2, k);
        let y = rev_bits(x, bits);
        assert(y == (x % 2) * pk + r);
        lemma_fundamental_div_mod_converse(y as int, pk as int, (x % 2) as int, r as int);
        lemma_rev_top(y, bits);
        assert(x / 2 < pk);
        lemma_rev_involution(x / 2, k);
    }
}

/// Reverses the lowest `bits` binary digits of `x`.
fn reverse_bits(x: usize, bits: usize) -> (r: usize)
    requires
        pow2(bits as nat) <= usize::MAX,
    ensures
        r == rev_bits(x as nat, bits as nat),
{
    let mut x = x;
    let ghost x0 = x as nat;
    let mut result: usize = 0;
    let mut i: usize = 0;
    proof {
        lemma_pow2_zero();
    }
    while i < bits
        invariant
            i <= bits,
            pow2(bits as nat) <= usize::MAX,
            result < pow2(i as nat),
            result * pow2((bits - i) as nat) + rev_bits(x as nat, (bits - i) as nat) == rev_bits(x0, bits as nat),
        decreases bits - i,
    {
        let ghost k = (bits - i) as nat;
        let ghost pk1 = pow2((k - 1) as nat);
        proof {
            lemma_pow2_unfold(k);
            lemma_pow2_unfold((i + 1) as nat);
            if i + 1 < bits {
                lemma_pow2_strictly_increases((i + 1) as nat, bits as nat);
            }
            assert(result * pow2(k) == (2 * result) * pk1) by (nonlinear_arith)
                requires
                    pow2(k) == 2 * pk1,
            ;
            assert((2 * result + x % 2) * pk1 == (2 * result) * pk1 + (x % 2) * pk1) by (nonlinear_arith);
        }
        result = result * 2 + x % 2;
        x = x / 2;
        i = i + 1;
    }
    proof {
        lemma_pow2_zero();
        assert(result * pow2(0) == result);
    }
    result
}

/// The exponent of a power of two, by doubling up to it.
fn log2_exact(n: usize) -> (k: usize)
    requires
        power_of_two(n as nat),
    ensures
        pow2(k as nat) == n,
        k as nat == log2_of(n as nat),
{
    let ghost kn = log2_of(n as nat);
    let mut m: usize = 1;
    let mut k: usize = 0;
    proof {
        lemma_pow2_zero();
        lemma_pow2_pos(kn);
    }
    while m < n
        invariant
            m == pow2(k as nat),
            pow2(kn) == n,
            k <= kn,
            k < m,
            m <= n,
        decreases n - m,
    {
        proof {
            if kn <= k {
                if kn < k {
                    lemma_pow2_strictly_increases(kn, k as nat);
                }
            }
            assert(k < kn);
            lemma_pow2_unfold((k + 1) as nat);
            if k + 1 < kn {
                lemma_pow2_strictly_increases((k + 1) as nat, kn);
            }
        }
        m = m * 2;
        k = k + 1;
    }
    proof {
        if k < kn {
            lemma_pow2_strictly_increases(k as nat, kn);
        }
        lemma_log2_of(k as nat);
    }
    k
}

/// Permutes `values` into bit-reversed order: afterwards position `i` holds what stood at
/// the reversal of `i`'s digits.
fn bit_reverse_permute(values: &mut [GoldilocksField])
    requires
        power_of_two(old(values)@.len()),
    ensures
        final(values)@.len() == old(values)@.len(),
        forall|i: int|
            0 <= i < old(values)@.len() ==> #[trigger] final(values)@[i] == old(values)@[rev_bits(
                i as nat,
                log2_of(old(values)@.len()),
            ) as int],
{
    let ghost a = values@;
    let n = values.len();
    let log_n = log2_exact(n);
    let ghost kk = log_n as nat;
    let mut i: usize = 0;
    while i < n
        invariant
            values@.len() == n == a.len(),
            pow2(kk) == n,
            kk == log2_of(n as nat),
            kk == log_n,
            i <= n,
            forall|p: int|
                0 <= p < n ==> #[trigger] values@[p] == (if p < i || rev_bits(p as nat, kk) < i {
                    a[rev_bits(p as nat, kk) as int]
                } else {
                    a[p]
                }),
        decreases n - i,
    {
        let j = reverse_bits(i, log_n);
        proof {
            lemma_rev_bound(i as nat, kk);
            lemma_rev_involution(i as nat, kk);
            assert forall|p: int| 0 <= p < n && p != i && p != j implies #[trigger] rev_bits(p as nat, kk) != i by {
                lemma_rev_involution(p as nat, kk);
            }
        }
        if i < j {
            let vi = values[i];
            let vj = values[j];
            values[i] = vj;
            values[j] = vi;
        }
        i = i + 1;
    }
}

/// `Σ_{r < len} a[c + s·r] · w^(r·t)` over the integers, each entry read as a field value.
pub open spec fn strided_sum(a: Seq<GoldilocksField>, c: int, s: int, len: nat, w: int, t: nat) -> int
    decreases len,
{
    if len == 0 {
        0
    } else {
        strided_sum(a, c, s, (len - 1) as nat, w, t) + fv(a[c + s * (len - 1)]) * pow(w, ((len - 1) * t) as nat)
    }
}

/// Entry `t` of the discrete Fourier transform of `a` with root `w`: `Σ_j a_j · w^(j·t)`,
/// over the integers.
pub open spec fn dft(a: Seq<GoldilocksField>, w: int, t: nat) -> int {
    strided_sum(a, 0, 1, a.len(), w, t)
}

/// A sum over `2·len` strided entries splits into its even and its odd entries.
proof fn lemma_split(a: Seq<GoldilocksField>, c: int, s: int, len: nat, w: int, t: nat)
    ensures
        strided_sum(a, c, s, 2 * len, w, t) == strided_sum(a, c, 2 * s, len, pow(w, 2), t) + pow(w, t)
            * strided_sum(a, c + s, 2 * s, len, pow(w, 2), t),
    decreases len,
{
    if len > 0 {
        let l = (len - 1) as nat;
        lemma_split(a, c, s, l, w, t);
        let i0 = c + s * (2 * l);
        let i1 = c + s * (2 * l + 1);
        assert(c + s * (2 * l) == c + (2 * s) * l) by (nonlinear_arith);
        assert(c + s * (2 * l + 1) == (c + s) + (2 * s) * l) by (nonlinear_arith);
        let e0 = ((2 * l) * t) as nat;
        let e1 = ((2 * l + 1) * t) as nat;
        assert(strided_sum(a, c, s, (2 * l + 1) as nat, w, t) == strided_sum(a, c, s, 2 * l, w, t) + fv(a[i0])
            * pow(w, e0));
        assert(strided_sum(a, c, s, (2 * l + 2) as nat, w, t) == strided_sum(a, c, s, (2 * l + 1) as nat, w, t)
            + fv(a[i1]) * pow(w, e1));
        assert(2 * len == 2 * l + 2);
        lemma_pow_multiplies(w, 2, l * t);
        assert(2 * (l * t) == (2 * l) * t) by (nonlinear_arith);
        assert(pow(pow(w, 2), l * t) == pow(w, e0));
        assert((2 * l + 1) * t == t + (2 * l) * t) by (nonlinear_arith);
        lemma_pow_adds(w, t, e0);
        assert(pow(w, e1) == pow(w, t) * pow(w, e0));
        let odd = strided_sum(a, c + s, 2 * s, l, pow(w, 2), t);
        let x1 = fv(a[i1]) as int;
        assert(pow(w, t) * (odd + x1 * pow(w, e0)) == pow(w, t) * odd + x1 * (pow(w, t) * pow(w, e0)))
            by (nonlinear_arith);
    }
}

/// Mod `p`, a strided sum depends on its root only through the root's residue.
proof fn lemma_sum_root_mod(a: Seq<GoldilocksField>, c: int, s: int, len: nat, w1: int, w2: int, t: nat)
    requires
        w1 % (GOLDILOCKS_PRIME as int) == w2 % (GOLDILOCKS_PRIME as int),
    ensures
        strided_sum(a, c, s, len, w1, t) % (GOLDILOCKS_PRIME as int) == strided_sum(a, c, s, len, w2, t) % (
        GOLDILOCKS_PRIME as int),
    decreases len,
{
    let p = GOLDILOCKS_PRIME as int;
    if len > 0 {
        let l = (len - 1) as nat;
        lemma_sum_root_mod(a, c, s, l, w1, w2, t);
        let e = (l * t) as nat;
        let x = fv(a[c + s * l]) as int;
        lemma_pow_mod_noop(w1, e, p);
        lemma_pow_mod_noop(w2, e, p);
        lemma_mul_mod_noop_general(x, pow(w1, e), p);
        lemma_mul_mod_noop_general(x, pow(w2, e), p);
        lemma_add_mod_noop(strided_sum(a, c, s, l, w1, t), x * pow(w1, e), p);
        lemma_add_mod_noop(strided_sum(a, c, s, l, w2, t), x * pow(w2, e), p);
    }
}

/// A factor congruent to one drops out of a product mod `p`.
proof fn lemma_mul_by_one_mod(x: int, y: int)
    requires
        y % (GOLDILOCKS_PRIME as int) == 1,
    ensures
        (x * y) % (GOLDILOCKS_PRIME as int) == x % (GOLDILOCKS_PRIME as int),
{
    let p = GOLDILOCKS_PRIME as int;
    lemma_mul_mod_noop_general(x, y, p);
    lemma_mod_twice(x, p);
}

/// With `w^period = 1` mod `p`, shifting `t` by the period leaves the sum unchanged mod `p`.
proof fn lemma_sum_period(a: Seq<GoldilocksField>, c: int, s: int, len: nat, w: int, t: nat, period: nat)
    requires
        pow(w, period) % (GOLDILOCKS_PRIME as int) == 1,
    ensures
        strided_sum(a, c, s, len, w, t + period) % (GOLDILOCKS_PRIME as int) == strided_sum(a, c, s, len, w, t) % (
        GOLDILOCKS_PRIME as int),
    decreases len,
{
    let p = GOLDILOCKS_PRIME as int;
    if len > 0 {
        let l = (len - 1) as nat;
        lemma_sum_period(a, c, s, l, w, t, period);
        let x = fv(a[c + s * l]) as int;
        let e = (l * t) as nat;
        let f = (l * period) as nat;
        assert(l * (t + period) == l * t + l * period) by (nonlinear_arith);
        lemma_pow_adds(w, e, f);
        lemma_pow_multiplies(w, period, l);
        assert(period * l == l * period) by (nonlinear_arith);
        lemma_pow_mod_noop(pow(w, period), l, p);
        lemma1_pow(l);
        assert(pow(w, f) % p == 1) by {
            assert(pow(pow(w, period) % p, l) == 1);
            lemma_small_mod(1, p as nat);
        }
        lemma_mul_is_associative(x, pow(w, e), pow(w, f));
        lemma_mul_by_one_mod(x * pow(w, e), pow(w, f));
        let tp = (t + period) as nat;
        assert(x * pow(w, ((len - 1) * tp) as nat) == (x * pow(w, e)) * pow(w, f));
        lemma_add_mod_noop(strided_sum(a, c, s, l, w, tp), x * pow(w, ((len - 1) * tp) as nat), p);
        lemma_add_mod_noop(strided_sum(a, c, s, l, w, t), x * pow(w, e), p);
    }
}

/// Multiplying by `p - 1` negates mod `p`.
proof fn lemma_mul_minus_one(x: int, y: int)
    requires
        y % (GOLDILOCKS_PRIME as int) == GOLDILOCKS_PRIME - 1,
    ensures
        (x * y) % (GOLDILOCKS_PRIME as int) == (-x) % (GOLDILOCKS_PRIME as int),
{
    let p = GOLDILOCKS_PRIME as int;
    lemma_mul_mod_noop_general(x, y, p);
    lemma_mul_mod_noop_general(x, p - 1, p);
    lemma_small_mod((p - 1) as nat, p as nat);
    assert(x * (p - 1) == p * x + (-x)) by (nonlinear_arith);
    lemma_mod_multiples_vanish(x, -x, p);
}

/// One butterfly: from the two half-size sums at `i`, the sums of size `2m` at `i` and at
/// `i + m`, mod `p`, given that `w^m = -1` and `(w^2)^m = 1`.
proof fn lemma_butterfly(
    a: Seq<GoldilocksField>,
    c: int,
    s: int,
    m: nat,
    w: int,
    i: nat,
    fu: int,
    fvv: int,
    fop: int,
)
    requires
        fu % (GOLDILOCKS_PRIME as int) == strided_sum(a, c, 2 * s, m, pow(w, 2), i) % (GOLDILOCKS_PRIME as int),
        fvv % (GOLDILOCKS_PRIME as int) == strided_sum(a, c + s, 2 * s, m, pow(w, 2), i) % (GOLDILOCKS_PRIME as int),
        fop % (GOLDILOCKS_PRIME as int) == pow(w, i) % (GOLDILOCKS_PRIME as int),
        pow(pow(w, 2), m) % (GOLDILOCKS_PRIME as int) == 1,
        pow(w, m) % (GOLDILOCKS_PRIME as int) == GOLDILOCKS_PRIME - 1,
    ensures
        (fu + (fop * fvv) % (GOLDILOCKS_PRIME as int)) % (GOLDILOCKS_PRIME as int) == strided_sum(a, c, s, 2 * m, w, i)
            % (GOLDILOCKS_PRIME as int),
        (fu - (fop * fvv) % (GOLDILOCKS_PRIME as int)) % (GOLDILOCKS_PRIME as int) == strided_sum(
            a,
            c,
            s,
            2 * m,
            w,
            i + m,
        ) % (GOLDILOCKS_PRIME as int),
{
    let p = GOLDILOCKS_PRIME as int;
    let w2 = pow(w, 2);
    let e = strided_sum(a, c, 2 * s, m, w2, i);
    let o = strided_sum(a, c + s, 2 * s, m, w2, i);
    let im = (i + m) as nat;
    let e2 = strided_sum(a, c, 2 * s, m, w2, im);
    let o2 = strided_sum(a, c + s, 2 * s, m, w2, im);
    let x = fop * fvv;
    let aw = pow(w, i);
    let bw = pow(w, m);
    lemma_split(a, c, s, m, w, i);
    lemma_split(a, c, s, m, w, im);
    lemma_sum_period(a, c, 2 * s, m, w2, i, m);
    lemma_sum_period(a, c + s, 2 * s, m, w2, i, m);
    lemma_pow_adds(w, i, m);
    // fop * fvv is congruent to w^i * o
    lemma_mul_mod_noop_general(fop, fvv, p);
    lemma_mul_mod_noop_general(aw, o, p);
    assert(x % p == (aw * o) % p);
    // the sum
    lemma_add_mod_noop_right(fu, x, p);
    lemma_add_mod_noop(fu, x, p);
    lemma_add_mod_noop(e, aw * o, p);
    // the difference
    lemma_sub_mod_noop_right(fu, x, p);
    lemma_sub_mod_noop(fu, x, p);
    lemma_sub_mod_noop(e, aw * o, p);
    // w^(i+m) * o2 is congruent to -(w^i * o)
    lemma_mul_is_associative(aw, bw, o2);
    lemma_mul_is_commutative(bw, o2);
    lemma_mul_is_associative(aw, o2, bw);
    assert(pow(w, im) * o2 == (aw * o2) * bw);
    lemma_mul_minus_one(aw * o2, bw);
    lemma_mul_mod_noop_general(aw, o2, p);
    assert((aw * o2) % p == (aw * o) % p);
    assert((-(aw * o2)) % p == (-(aw * o)) % p) by {
        lemma_sub_mod_noop(0, aw * o2, p);
        lemma_sub_mod_noop(0, aw * o, p);
    }
    lemma_add_mod_noop(e2, pow(w, im) * o2, p);
    lemma_add_mod_noop(e, -(aw * o), p);
}

/// Entry `t` of block `b` when `v` is cut into blocks of `m` entries.
spec fn entry(v: Seq<GoldilocksField>, m: nat, b: nat, t: nat) -> GoldilocksField {
    v[(b * m + t) as int]
}

/// What block `b` of size `2^j` holds after `j` butterfly layers over the bit-reversed
/// `a` of length `2^k`: the size-`2^j` transform, with root `w^(2^(k-j))`, of the entries of
/// `a` at `rev(b) + 2^(k-j)·r`.
spec fn layer_target(a: Seq<GoldilocksField>, k: nat, j: nat, w: int, b: nat, t: nat) -> int {
    strided_sum(
        a,
        rev_bits(b, (k - j) as nat) as int,
        pow2((k - j) as nat) as int,
        pow2(j),
        pow(w, pow2((k - j) as nat)),
        t,
    )
}

/// Blocks `lo..hi` of size `2^j` hold their layer targets, mod `p`.
spec fn layer_ok(v: Seq<GoldilocksField>, a: Seq<GoldilocksField>, k: nat, j: nat, w: int, lo: nat, hi: nat) -> bool {
    forall|b: nat, t: nat|
        lo <= b < hi && t < pow2(j) ==> fv(#[trigger] entry(v, pow2(j), b, t)) == modp(
            layer_target(a, k, j, w, b, t),
        )
}

/// The two halves of block `b` after layer `j + 1` come from blocks `2b` and `2b + 1` of
/// layer `j`.
proof fn lemma_layer_halves(a: Seq<GoldilocksField>, k: nat, j: nat, w: int, b: nat, i: nat)
    requires
        j < k,
    ensures
        ({
            let s = pow2((k - j - 1) as nat);
            let c = rev_bits(b, (k - j - 1) as nat) as int;
            &&& layer_target(a, k, j, w, 2 * b, i) == strided_sum(a, c, 2 * s as int, pow2(j), pow(pow(w, s), 2), i)
            &&& layer_target(a, k, j, w, 2 * b + 1, i) == strided_sum(a, c + s, 2 * s as int, pow2(j), pow(pow(w, s), 2), i)
            &&& layer_target(a, k, (j + 1) as nat, w, b, i) == strided_sum(a, c, s as int, 2 * pow2(j), pow(w, s), i)
        }),
{
    let d = (k - j) as nat;
    let s = pow2((d - 1) as nat);
    lemma_pow2_unfold(d);
    lemma_pow2_unfold(j + 1);
    assert((2 * b) % 2 == 0 && (2 * b) / 2 == b);
    assert((2 * b + 1) % 2 == 1 && (2 * b + 1) / 2 == b);
    assert(rev_bits(2 * b, d) == rev_bits(b, (d - 1) as nat));
    assert(rev_bits(2 * b + 1, d) == s + rev_bits(b, (d - 1) as nat));
    lemma_pow_multiplies(w, s, 2);
    assert(s * 2 == pow2(d));
    assert((k - (j + 1)) as nat == (d - 1) as nat);
}

/// Root facts for one layer: with `w^n = 1` and `w^(n/2) = -1`, the layer root
/// `u = w^(n/(2m))` has `u^m = -1` and `(u^2)^m = 1`.
proof fn lemma_layer_root(w: int, k: nat, j: nat)
    requires
        j < k,
        pow(w, pow2(k)) % (GOLDILOCKS_PRIME as int) == 1,
        pow(w, pow2((k - 1) as nat)) % (GOLDILOCKS_PRIME as int) == GOLDILOCKS_PRIME - 1,
    ensures
        ({
            let u = pow(w, pow2((k - j - 1) as nat));
            &&& pow(pow(u, 2), pow2(j)) % (GOLDILOCKS_PRIME as int) == 1
            &&& pow(u, pow2(j)) % (GOLDILOCKS_PRIME as int) == GOLDILOCKS_PRIME - 1
        }),
{
    let s = pow2((k - j - 1) as nat);
    let m = pow2(j);
    vstd::arithmetic::power2::lemma_pow2_adds((k - j - 1) as nat, j);
    vstd::arithmetic::power2::lemma_pow2_adds((k - j - 1) as nat, j + 1);
    lemma_pow2_unfold(j + 1);
    assert(((k - j - 1) as nat + j) as nat == (k - 1) as nat);
    assert(((k - j - 1) as nat + (j + 1)) as nat == k);
    lemma_pow_multiplies(w, s, 2);
    lemma_pow_multiplies(w, s * 2, m);
    lemma_pow_multiplies(w, s, m);
    assert(s * 2 * m == s * (2 * m)) by (nonlinear_arith);
}

/// Runs the butterfly layers over `values`, which hold `a` in bit-reversed order: on return
/// entry `t` is the transform `Σ_j a_j · w^(j·t)` mod `p`, `w` being `root`.
fn butterfly_layers(
    values: &mut [GoldilocksField],
    root: &GoldilocksField,
    Ghost(a): Ghost<Seq<GoldilocksField>>,
    Ghost(k): Ghost<nat>,
)
    requires
        old(values)@.len() == a.len() == pow2(k),
        pow(fv(*root) as int, pow2(k)) % (GOLDILOCKS_PRIME as int) == 1,
        k >= 1 ==> pow(fv(*root) as int, pow2((k - 1) as nat)) % (GOLDILOCKS_PRIME as int) == GOLDILOCKS_PRIME - 1,
        forall|i: int| 0 <= i < a.len() ==> old(values)@[i] == a[rev_bits(i as nat, k) as int],
    ensures
        final(values)@.len() == a.len(),
        forall|t: int| 0 <= t < a.len() ==> fv(#[trigger] final(values)@[t]) == modp(dft(a, fv(*root) as int, t as nat)),
        k >= 1 ==> forall|t: int| 0 <= t < a.len() ==> canonical(#[trigger] final(values)@[t]),
{
    let n = values.len();
    let ghost w = fv(*root) as int;
    let mut m: usize = 1;
    let ghost mut j: nat = 0;
    proof {
        lemma_pow2_zero();
        assert forall|b: nat, t: nat| 0 <= b < pow2(k) && t < pow2(0) implies fv(#[trigger] entry(values@, pow2(0), b, t))
            == modp(layer_target(a, k, 0, w, b, t)) by {
            assert(t == 0);
            assert(b * 1 + 0 == b);
            lemma_pow0(pow(w, pow2(k)));
            assert(strided_sum(a, rev_bits(b, k) as int, pow2(k) as int, 0, pow(w, pow2(k)), 0) == 0);
            assert(rev_bits(b, k) + pow2(k) * 0 == rev_bits(b, k));
            assert(layer_target(a, k, 0, w, b, t) == fv(a[rev_bits(b, k) as int]) * 1);
            lemma_small_mod(fv(a[rev_bits(b, k) as int]), GOLDILOCKS_PRIME as nat);
        }
    }
    while m < n
        invariant
            values@.len() == n == a.len() == pow2(k),
            m == pow2(j),
            j <= k,
            w == fv(*root) as int,
            pow(w, pow2(k)) % (GOLDILOCKS_PRIME as int) == 1,
            k >= 1 ==> pow(w, pow2((k - 1) as nat)) % (GOLDILOCKS_PRIME as int) == GOLDILOCKS_PRIME - 1,
            layer_ok(values@, a, k, j, w, 0, pow2((k - j) as nat)),
            j >= 1 ==> forall|x: int| 0 <= x < n ==> canonical(#[trigger] values@[x]),
        decreases n - m,
    {
        let ghost s = pow2((k - j - 1) as nat);
        proof {
            if k <= j {
                assert(j == k);
            }
            assert(j < k);
            vstd::arithmetic::power2::lemma_pow2_adds((k - j - 1) as nat, j + 1);
            assert(((k - j - 1) as nat + (j + 1)) as nat == k);
            lemma_pow2_unfold(j + 1);
            lemma_pow2_unfold((k - j) as nat);
            lemma_pow2_pos((k - j - 1) as nat);
            lemma_pow2_pos(j);
            assert(s * pow2(j + 1) == n);
            assert(s * (2 * m) == n);
            assert(2 * m <= n) by (nonlinear_arith)
                requires
                    s * (2 * m) == n,
                    s >= 1,
            ;
            assert(n as int == (s as int) * ((2 * m) as int) + 0);
            lemma_fundamental_div_mod_converse(n as int, (2 * m) as int, s as int, 0);
            lemma_layer_root(w, k, j);
        }
        let half = n / (2 * m);
        let omega_m = root.pow(half as u64);
        let ghost ww = pow(w, s);
        let mut blk: usize = 0;
        let ghost mut bb: nat = 0;
        while blk < n
            invariant
                values@.len() == n == a.len() == pow2(k),
                m == pow2(j),
                j < k,
                s == pow2((k - j - 1) as nat),
                s * (2 * m) == n,
                pow2((k - j) as nat) == 2 * s,
                pow2(j + 1) == 2 * m,
                w == fv(*root) as int,
                ww == pow(w, s),
                omega_m.0 == modp(ww),
                canonical(omega_m),
                pow(pow(ww, 2), m as nat) % (GOLDILOCKS_PRIME as int) == 1,
                pow(ww, m as nat) % (GOLDILOCKS_PRIME as int) == GOLDILOCKS_PRIME - 1,
                pow(w, pow2(k)) % (GOLDILOCKS_PRIME as int) == 1,
                k >= 1 ==> pow(w, pow2((k - 1) as nat)) % (GOLDILOCKS_PRIME as int) == GOLDILOCKS_PRIME - 1,
                blk == bb * (2 * m),
                bb <= s,
                layer_ok(values@, a, k, (j + 1) as nat, w, 0, bb),
                layer_ok(values@, a, k, j, w, 2 * bb, 2 * s),
                forall|x: int| 0 <= x < n && (x < blk || j >= 1) ==> canonical(#[trigger] values@[x]),
            decreases n - blk,
        {
            let ghost vb = values@;
            let ghost c = rev_bits(bb, (k - j - 1) as nat) as int;
            let ghost m2 = pow2(j + 1);
            proof {
                assert(bb < s) by {
                    if bb >= s {
                        assert(bb * (2 * m) >= s * (2 * m)) by (nonlinear_arith)
                            requires
                                bb >= s,
                        ;
                    }
                }
                assert(blk + 2 * m <= n) by (nonlinear_arith)
                    requires
                        blk == bb * (2 * m),
                        bb < s,
                        s * (2 * m) == n,
                ;
            }
            let mut omega_power = GoldilocksField::one();
            let mut i: usize = 0;
            proof {
                lemma_pow0(ww);
                lemma_small_mod(1, GOLDILOCKS_PRIME as nat);
            }
            while i < m
                invariant
                    values@.len() == n == vb.len(),
                    m == pow2(j),
                    j < k,
                    s == pow2((k - j - 1) as nat),
                    m2 == pow2(j + 1) == 2 * m,
                    pow2((k - j) as nat) == 2 * s,
                    c == rev_bits(bb, (k - j - 1) as nat) as int,
                    w == fv(*root) as int,
                    ww == pow(w, s),
                    omega_m.0 == modp(ww),
                    canonical(omega_m),
                    pow(pow(ww, 2), m as nat) % (GOLDILOCKS_PRIME as int) == 1,
                    pow(ww, m as nat) % (GOLDILOCKS_PRIME as int) == GOLDILOCKS_PRIME - 1,
                    blk == bb * (2 * m),
                    blk + 2 * m <= n,
                    bb < s,
                    i <= m,
                    omega_power.0 == modp(pow(ww, i as nat)),
                    canonical(omega_power),
                    layer_ok(vb, a, k, j, w, 2 * bb, 2 * s),
                    forall|x: int| 0 <= x < n && !(blk <= x < blk + 2 * m) ==> #[trigger] values@[x] == vb[x],
                    forall|x: int|
                        0 <= x < n && (x < blk || j >= 1 || (blk <= x < blk + i) || (blk + m <= x < blk + m + i))
                            ==> canonical(#[trigger] values@[x]),
                    forall|q: nat|
                        (q < i || (m <= q < m + i)) ==> fv(#[trigger] entry(values@, m2, bb, q)) == modp(
                            layer_target(a, k, (j + 1) as nat, w, bb, q),
                        ),
                    forall|q: nat|
                        ((i <= q < m) || (m + i <= q < 2 * m)) ==> #[trigger] entry(values@, m2, bb, q) == entry(
                            vb,
                            m2,
                            bb,
                            q,
                        ),
                decreases m - i,
            {
                let ghost iq = i as nat;
                let ghost cur = values@;
                proof {
                    assert(bb * m2 + iq == (2 * bb) * m + iq) by (nonlinear_arith)
                        requires
                            m2 == 2 * m,
                    ;
                    assert(bb * m2 + (m + iq) == (2 * bb + 1) * m + iq) by (nonlinear_arith)
                        requires
                            m2 == 2 * m,
                    ;
                    assert(entry(cur, m2, bb, iq) == entry(vb, m2, bb, iq));
                    assert(entry(cur, m2, bb, (m + iq) as nat) == entry(vb, m2, bb, (m + iq) as nat));
                    assert(entry(vb, m2, bb, iq) == entry(vb, pow2(j), 2 * bb, iq));
                    assert(entry(vb, m2, bb, (m + iq) as nat) == entry(vb, pow2(j), 2 * bb + 1, iq));
                    lemma_layer_halves(a, k, j, w, bb, iq);
                    lemma_layer_halves(a, k, j, w, bb, (iq + m) as nat);
                }
                let vv = values[blk + i + m];
                let t = omega_power.mul(&vv);
                let u = values[blk + i];
                proof {
                    assert(u == entry(vb, pow2(j), 2 * bb, iq));
                    assert(vv == entry(vb, pow2(j), 2 * bb + 1, iq));
                    lemma_small_mod(omega_power.0 as nat, GOLDILOCKS_PRIME as nat);
                    lemma_small_mod(t.0 as nat, GOLDILOCKS_PRIME as nat);
                    lemma_pow_mod_noop(ww, iq, GOLDILOCKS_PRIME as int);
                    lemma_mod_twice(pow(ww, iq), GOLDILOCKS_PRIME as int);
                    lemma_butterfly(a, c, s as int, m as nat, ww, iq, fv(u) as int, fv(vv) as int, fv(omega_power) as int);
                }
                let sum = u.add(&t);
                let diff = u.sub(&t);
                values[blk + i] = sum;
                values[blk + i + m] = diff;
                let ghost prev_power = omega_power;
                omega_power = omega_power.mul(&omega_m);
                proof {
                    lemma_small_mod(sum.0 as nat, GOLDILOCKS_PRIME as nat);
                    lemma_small_mod(diff.0 as nat, GOLDILOCKS_PRIME as nat);
                    assert(entry(values@, m2, bb, iq) == sum);
                    assert(entry(values@, m2, bb, (m + iq) as nat) == diff);
                    // the next power of the layer root
                    let pp = pow(ww, iq);
                    lemma_small_mod(prev_power.0 as nat, GOLDILOCKS_PRIME as nat);
                    lemma_small_mod(omega_m.0 as nat, GOLDILOCKS_PRIME as nat);
                    lemma_pow_adds(ww, iq, 1);
                    lemma_pow1(ww);
                    lemma_mul_mod_noop_general(pp, ww, GOLDILOCKS_PRIME as int);
                    assert(omega_power.0 == modp(pow(ww, (iq + 1) as nat)));
                    assert forall|q: nat|
                        (q < i + 1 || (m <= q < m + i + 1)) implies fv(#[trigger] entry(values@, m2, bb, q))
                        == modp(layer_target(a, k, (j + 1) as nat, w, bb, q)) by {
                        if q != iq && q != m + iq {
                            assert(bb * m2 + q != bb * m2 + iq);
                            assert(entry(values@, m2, bb, q) == entry(cur, m2, bb, q));
                        }
                    }
                    assert forall|q: nat|
                        ((i + 1 <= q < m) || (m + i + 1 <= q < 2 * m)) implies #[trigger] entry(values@, m2, bb, q)
                        == entry(vb, m2, bb, q) by {
                        assert(entry(values@, m2, bb, q) == entry(cur, m2, bb, q));
                    }
                    assert forall|x: int| 0 <= x < n && !(blk <= x < blk + 2 * m) implies #[trigger] values@[x]
                        == vb[x] by {
                        assert(values@[x] == cur[x]);
                    }
                    assert forall|x: int|
                        0 <= x < n && (x < blk || j >= 1 || (blk <= x < blk + i + 1) || (blk + m <= x < blk + m + i
                            + 1)) implies canonical(#[trigger] values@[x]) by {
                        if x != blk + i && x != blk + i + m {
                            assert(values@[x] == cur[x]);
                        }
                    }
                }
                i = i + 1;
            }
            proof {
                assert(blk + 2 * m == (bb + 1) * (2 * m)) by (nonlinear_arith)
                    requires
                        blk == bb * (2 * m),
                ;
                assert forall|b: nat, t: nat|
                    0 <= b < bb + 1 && t < pow2(j + 1) implies fv(#[trigger] entry(values@, pow2(j + 1), b, t))
                    == modp(layer_target(a, k, (j + 1) as nat, w, b, t)) by {
                    if b < bb {
                        assert(b * m2 + t < blk) by (nonlinear_arith)
                            requires
                                b < bb,
                                t < m2,
                                blk == bb * m2,
                        ;
                        assert(entry(values@, m2, b, t) == entry(vb, m2, b, t));
                    }
                }
                assert forall|b: nat, t: nat|
                    2 * (bb + 1) <= b < 2 * s && t < pow2(j) implies fv(#[trigger] entry(values@, pow2(j), b, t))
                    == modp(layer_target(a, k, j, w, b, t)) by {
                    assert(b * m + t >= blk + 2 * m) by (nonlinear_arith)
                        requires
                            b >= 2 * bb + 2,
                            blk == bb * (2 * m),
                    ;
                    assert(b * m + t < n) by (nonlinear_arith)
                        requires
                            b < 2 * s,
                            t < m,
                            s * (2 * m) == n,
                    ;
                    assert(entry(values@, m as nat, b, t) == entry(vb, m as nat, b, t));
                }
            }
            blk = blk + 2 * m;
            proof {
                bb = bb + 1;
            }
        }
        proof {
            assert(bb == s) by {
                if bb < s {
                    assert(bb * (2 * m) < s * (2 * m)) by (nonlinear_arith)
                        requires
                            bb < s,
                            m > 0,
                    ;
                }
            }
            assert((k - (j + 1)) as nat == (k - j - 1) as nat);
        }
        m = m * 2;
        proof {
            j = j + 1;
        }
    }
    proof {
        if j < k {
            lemma_pow2_strictly_increases(j, k);
        }
        assert(j == k);
        if k >= 1 && j == 0 {
            lemma_pow2_zero();
        }
        lemma_pow2_zero();
        lemma_pow1(w);
        assert forall|t: int| 0 <= t < a.len() implies fv(#[trigger] values@[t]) == modp(dft(a, w, t as nat)) by {
            assert(entry(values@, pow2(k), 0, t as nat) == values@[t]);
            assert(rev_bits(0, 0) == 0);
        }
    }
}

/// The primitive `n`-th root of unity `7^((p-1)/n)` that the transforms use.
pub open spec fn root_of_unity(n: nat) -> nat {
    modp(pow(7, ((GOLDILOCKS_PRIME - 1) as nat / n) as nat))
}

/// `x^(p-2)` mod `p`: the inverse of `x` for `x != 0` mod `p`.
pub open spec fn field_inverse(x: nat) -> nat {
    modp(pow(x as int, (GOLDILOCKS_PRIME - 2) as nat))
}

/// The coefficients `c_j · s^j` that move a polynomial onto the coset `s·⟨ω⟩`.
pub open spec fn coset_scaled(cs: Seq<GoldilocksField>, s: nat) -> Seq<GoldilocksField> {
    Seq::new(cs.len(), |j: int| GoldilocksField(modp(fv(cs[j]) * pow(s as int, j as nat)) as u64))
}

proof fn lemma_odd_power_of_minus_one(x: int, e: nat)
    requires
        x % (GOLDILOCKS_PRIME as int) == GOLDILOCKS_PRIME - 1,
        e % 2 == 1,
    ensures
        pow(x, e) % (GOLDILOCKS_PRIME as int) == GOLDILOCKS_PRIME - 1,
{
    let p = GOLDILOCKS_PRIME as int;
    let h = (e / 2) as nat;
    lemma_pow_multiplies(x, 2, h);
    lemma_pow_adds(x, 2 * h, 1);
    lemma_pow1(x);
    lemma_square_is_pow2(x);
    lemma_mul_mod_noop_general(x, x, p);
    assert(((p - 1) * (p - 1)) % p == 1) by (nonlinear_arith)
        requires
            p == 0xffff_ffff_0000_0001,
    ;
    assert(pow(x, 2) % p == 1);
    lemma_pow_mod_noop(pow(x, 2), h, p);
    lemma1_pow(h);
    lemma_small_mod(1, p as nat);
    assert(pow(pow(x, 2), h) % p == 1);
    assert(e == 2 * h + 1);
    assert(pow(x, e) == pow(pow(x, 2), h) * x);
    lemma_mul_mod_noop_general(pow(pow(x, 2), h), x, p);
}

/// For `n = 2^k` with `k <= 32`: `ω = 7^((p-1)/n)` has `ω^n = 1`, and `ω^(n/2) = -1` when
/// `n >= 2`; the same holds of its inverse `ω^(p-2)`.
proof fn lemma_root_facts(k: nat)
    requires
        k <= 32,
    ensures
        ({
            let n = pow2(k);
            let om = root_of_unity(n) as int;
            let oi = field_inverse(root_of_unity(n)) as int;
            &&& (GOLDILOCKS_PRIME - 1) as nat % n == 0
            &&& pow(om, n) % (GOLDILOCKS_PRIME as int) == 1
            &&& k >= 1 ==> pow(om, pow2((k - 1) as nat)) % (GOLDILOCKS_PRIME as int) == GOLDILOCKS_PRIME - 1
            &&& om % (GOLDILOCKS_PRIME as int) != 0
            &&& pow(oi, n) % (GOLDILOCKS_PRIME as int) == 1
            &&& k >= 1 ==> pow(oi, pow2((k - 1) as nat)) % (GOLDILOCKS_PRIME as int) == GOLDILOCKS_PRIME - 1
        }),
{
    let p = GOLDILOCKS_PRIME as int;
    let n = pow2(k);
    lemma_power_facts();
    vstd::arithmetic::power2::lemma2_to64();
    vstd::arithmetic::power2::lemma_pow2_adds((32 - k) as nat, k);
    assert(((32 - k) as nat + k) as nat == 32);
    let big = pow2((32 - k) as nat) * 0xffff_ffffnat;
    assert((GOLDILOCKS_PRIME - 1) as nat == pow2(32) * 0xffff_ffffnat);
    assert(pow2(32) * 0xffff_ffffnat == big * n) by (nonlinear_arith)
        requires
            pow2(32) == pow2((32 - k) as nat) * n,
            big == pow2((32 - k) as nat) * 0xffff_ffffnat,
    ;
    lemma_pow2_pos(k);
    lemma_fundamental_div_mod_converse((GOLDILOCKS_PRIME - 1) as int, n as int, big as int, 0);
    let e = (GOLDILOCKS_PRIME - 1) as nat / n;
    assert(e == big);
    let r7 = pow(7, e);
    let om = root_of_unity(n) as int;
    assert(om == r7 % p);
    // om^n = 7^(e n) = 7^(p-1) = 1
    lemma_pow_mod_noop(r7, n, p);
    lemma_pow_multiplies(7, e, n);
    assert(e * n == (GOLDILOCKS_PRIME - 1) as nat);
    assert(pow(om, n) % p == 1);
    if om % p == 0 {
        lemma_small_mod(om as nat, p as nat);
        lemma0_pow(n);
    }
    if k >= 1 {
        let h = pow2((k - 1) as nat);
        lemma_pow2_unfold(k);
        lemma_pow_mod_noop(r7, h, p);
        lemma_pow_multiplies(7, e, h);
        assert(e * h == ((GOLDILOCKS_PRIME - 1) / 2) as nat) by (nonlinear_arith)
            requires
                e * n == (GOLDILOCKS_PRIME - 1) as nat,
                n == 2 * h,
        ;
        assert(pow(om, h) % p == p - 1);
    }
    // the inverse root
    let oi = field_inverse(root_of_unity(n)) as int;
    let q = (GOLDILOCKS_PRIME - 2) as nat;
    let pq = pow(om, q);
    assert(oi == pq % p);
    lemma_pow_mod_noop(pq, n, p);
    lemma_pow_multiplies(om, q, n);
    lemma_pow_multiplies(om, n, q);
    assert(q * n == n * q) by (nonlinear_arith);
    lemma_pow_mod_noop(pow(om, n), q, p);
    lemma1_pow(q);
    lemma_small_mod(1, p as nat);
    assert(pow(oi, n) % p == 1);
    if k >= 1 {
        let h = pow2((k - 1) as nat);
        lemma_pow_mod_noop(pq, h, p);
        lemma_pow_multiplies(om, q, h);
        lemma_pow_multiplies(om, h, q);
        assert(q * h == h * q) by (nonlinear_arith);
        lemma_pow_mod_noop(pow(om, h), q, p);
        lemma_small_mod((p - 1) as nat, p as nat);
        lemma_odd_power_of_minus_one(p - 1, q);
        assert(pow(oi, h) % p == p - 1);
    }
}

proof fn lemma_log_bound(n: nat)
    requires
        power_of_two(n),
        n <= pow2(32),
    ensures
        log2_of(n) <= 32,
        pow2(log2_of(n)) == n,
{
    let k = choose|k: nat| pow2(k) == n;
    lemma_log2_of(k);
    if k > 32 {
        lemma_pow2_strictly_increases(32, k);
    }
}

/// A transform of length one is the identity.
proof fn lemma_dft_single(a: Seq<GoldilocksField>, w: int)
    requires
        a.len() == 1,
    ensures
        modp(dft(a, w, 0)) == fv(a[0]),
{
    lemma_pow0(w);
    assert(strided_sum(a, 0, 1, 0, w, 0) == 0);
    assert(dft(a, w, 0) == fv(a[0]) * 1);
    lemma_small_mod(fv(a[0]), GOLDILOCKS_PRIME as nat);
}

/// The primitive `n`-th root of unity `7^((p-1)/n)`; `n` is a power of two no larger than
/// `2^32`.
fn get_root_of_unity(n: usize) -> (r: GoldilocksField)
    requires
        power_of_two(n as nat),
        n <= pow2(32),
    ensures
        r.0 == root_of_unity(n as nat),
        canonical(r),
{
    proof {
        lemma_log_bound(n as nat);
        lemma_pow2_pos(log2_of(n as nat));
    }
    let g = GoldilocksField::new(7);
    let exp = (GOLDILOCKS_PRIME - 1) / (n as u64);
    proof {
        lemma_small_mod(7, GOLDILOCKS_PRIME as nat);
    }
    g.pow(exp)
}

/// Number-theoretic transform in place: entry `t` becomes `Σ_j c_j · ω^(j·t)` mod `p`, the
/// polynomial with coefficients `c` evaluated at `ω^t`, where `ω` is the primitive
/// `n`-th root of unity. The length must be a power of two no larger than `2^32`.
pub fn ntt(coeffs: &mut [GoldilocksField])
    requires
        power_of_two(old(coeffs)@.len()),
        old(coeffs)@.len() <= pow2(32),
    ensures
        final(coeffs)@.len() == old(coeffs)@.len(),
        forall|t: int|
            0 <= t < old(coeffs)@.len() ==> fv(#[trigger] final(coeffs)@[t]) == modp(
                dft(old(coeffs)@, root_of_unity(old(coeffs)@.len()) as int, t as nat),
            ),
        old(coeffs)@.len() > 1 ==> forall|t: int|
            0 <= t < old(coeffs)@.len() ==> canonical(#[trigger] final(coeffs)@[t]),
        old(coeffs)@.len() <= 1 ==> final(coeffs)@ == old(coeffs)@,
{
    let ghost a = coeffs@;
    let n = coeffs.len();
    proof {
        lemma_log_bound(n as nat);
        lemma_pow2_pos(log2_of(n as nat));
    }
    if n <= 1 {
        proof {
            lemma_dft_single(a, root_of_unity(1) as int);
        }
        return;
    }
    let ghost k = log2_of(n as nat);
    bit_reverse_permute(coeffs);
    let omega = get_root_of_unity(n);
    proof {
        lemma_root_facts(k);
        lemma_small_mod(omega.0 as nat, GOLDILOCKS_PRIME as nat);
        if k == 0 {
            lemma_pow2_zero();
        }
    }
    butterfly_layers(coeffs, &omega, Ghost(a), Ghost(k));
}

/// Inverse transform in place: entry `t` becomes `n⁻¹ · Σ_j v_j · ω^(-j·t)` mod `p`, with
/// `ω^(-1) = ω^(p-2)` and `n⁻¹ = n^(p-2)`. The length must be a power of two no larger
/// than `2^32`.
pub fn intt(values: &mut [GoldilocksField])
    requires
        power_of_two(old(values)@.len()),
        old(values)@.len() <= pow2(32),
    ensures
        final(values)@.len() == old(values)@.len(),
        forall|t: int|
            0 <= t < old(values)@.len() ==> fv(#[trigger] final(values)@[t]) == modp(
                field_inverse(old(values)@.len()) * dft(
                    old(values)@,
                    field_inverse(root_of_unity(old(values)@.len())) as int,
                    t as nat,
                ),
            ),
        old(values)@.len() > 1 ==> forall|t: int|
            0 <= t < old(values)@.len() ==> canonical(#[trigger] final(values)@[t]),
        old(values)@.len() <= 1 ==> final(values)@ == old(values)@,
{
    let ghost a = values@;
    let n = values.len();
    proof {
        lemma_log_bound(n as nat);
        lemma_pow2_pos(log2_of(n as nat));
    }
    if n <= 1 {
        proof {
            let x = a[0];
            lemma_dft_single(a, field_inverse(root_of_unity(1)) as int);
            lemma1_pow((GOLDILOCKS_PRIME - 2) as nat);
            lemma_small_mod(1, GOLDILOCKS_PRIME as nat);
            assert(field_inverse(1) == 1);
            lemma_mul_mod_noop_general(1, dft(a, field_inverse(root_of_unity(1)) as int, 0), GOLDILOCKS_PRIME as int);
        }
        return;
    }
    let ghost k = log2_of(n as nat);
    let omega = get_root_of_unity(n);
    proof {
        lemma_root_facts(k);
        lemma_small_mod(omega.0 as nat, GOLDILOCKS_PRIME as nat);
    }
    let omega_inv = match omega.inverse() {
        Some(x) => x,
        None => {
            proof {
                assert(false);
            }
            return;
        },
    };
    bit_reverse_permute(values);
    proof {
        lemma_small_mod(omega_inv.0 as nat, GOLDILOCKS_PRIME as nat);
        if k == 0 {
            lemma_pow2_zero();
        }
    }
    butterfly_layers(values, &omega_inv, Ghost(a), Ghost(k));
    let size = GoldilocksField::new(n as u64);
    proof {
        vstd::arithmetic::power2::lemma2_to64();
        lemma_small_mod(n as nat, GOLDILOCKS_PRIME as nat);
    }
    let n_inv = match size.inverse() {
        Some(x) => x,
        None => {
            proof {
                assert(false);
            }
            return;
        },
    };
    let ghost ni = field_inverse(n as nat) as int;
    let ghost wi = field_inverse(root_of_unity(n as nat)) as int;
    proof {
        lemma_small_mod(n_inv.0 as nat, GOLDILOCKS_PRIME as nat);
        assert(fv(n_inv) == ni);
    }
    let mut i: usize = 0;
    while i < n
        invariant
            values@.len() == n == a.len(),
            i <= n,
            fv(n_inv) == ni,
            ni == field_inverse(n as nat),
            wi == field_inverse(root_of_unity(n as nat)),
            forall|q: int| 0 <= q < i ==> fv(#[trigger] values@[q]) == modp(ni * dft(a, wi, q as nat)),
            forall|q: int| 0 <= q < i ==> canonical(#[trigger] values@[q]),
            forall|q: int| i <= q < n ==> fv(#[trigger] values@[q]) == modp(dft(a, wi, q as nat)),
        decreases n - i,
    {
        let x = values[i];
        let y = x.mul(&n_inv);
        proof {
            let d = dft(a, wi, i as nat);
            let pm = GOLDILOCKS_PRIME as int;
            lemma_small_mod(y.0 as nat, GOLDILOCKS_PRIME as nat);
            lemma_mul_mod_noop_general(d, ni, pm);
            lemma_mod_twice(d, pm);
            lemma_mul_mod_noop_general(fv(x) as int, ni, pm);
            lemma_mul_is_commutative(d, ni);
            assert(fv(y) == modp(ni * d));
        }
        values[i] = y;
        i = i + 1;
    }
}

/// Coefficients of the polynomial that takes the given values at the powers of the
/// primitive root: the inverse transform of a copy of `evaluations`.
pub fn interpolate(evaluations: &[GoldilocksField]) -> (coeffs: Vec<GoldilocksField>)
    requires
        power_of_two(evaluations@.len()),
        evaluations@.len() <= pow2(32),
    ensures
        coeffs@.len() == evaluations@.len(),
        forall|t: int|
            0 <= t < evaluations@.len() ==> fv(#[trigger] coeffs@[t]) == modp(
                field_inverse(evaluations@.len()) * dft(
                    evaluations@,
                    field_inverse(root_of_unity(evaluations@.len())) as int,
                    t as nat,
                ),
            ),
        evaluations@.len() > 1 ==> forall|t: int|
            0 <= t < evaluations@.len() ==> canonical(#[trigger] coeffs@[t]),
        evaluations@.len() <= 1 ==> coeffs@ == evaluations@,
{
    let mut coeffs = vstd::slice::slice_to_vec(evaluations);
    intt(coeffs.as_mut_slice());
    coeffs
}

/// Evaluates the polynomial with coefficients `coeffs` on the coset `s·⟨ω⟩`: entry `t` is
/// `Σ_j c_j · s^j · ω^(j·t)` mod `p`, the transform of the coefficients scaled by the powers
/// of the shift `s`. The length must be a power of two no larger than `2^32`.
pub fn eval_on_coset(coeffs: &[GoldilocksField], coset_shift: &GoldilocksField) -> (r: Vec<GoldilocksField>)
    requires
        power_of_two(coeffs@.len()),
        coeffs@.len() <= pow2(32),
    ensures
        r@.len() == coeffs@.len(),
        forall|t: int|
            0 <= t < coeffs@.len() ==> fv(#[trigger] r@[t]) == modp(
                dft(coset_scaled(coeffs@, fv(*coset_shift)), root_of_unity(coeffs@.len()) as int, t as nat),
            ),
        forall|t: int| 0 <= t < coeffs@.len() ==> canonical(#[trigger] r@[t]),
{
    let n = coeffs.len();
    let ghost s = fv(*coset_shift) as int;
    let mut shifted: Vec<GoldilocksField> = Vec::with_capacity(n);
    let mut shift_power = GoldilocksField::one();
    let mut i: usize = 0;
    proof {
        lemma_pow0(s);
        lemma_small_mod(1, GOLDILOCKS_PRIME as nat);
    }
    while i < n
        invariant
            i <= n == coeffs@.len(),
            s == fv(*coset_shift) as int,
            shifted@.len() == i,
            shift_power.0 == modp(pow(s, i as nat)),
            canonical(shift_power),
            forall|q: int| 0 <= q < i ==> #[trigger] shifted@[q] == coset_scaled(coeffs@, s as nat)[q],
            forall|q: int| 0 <= q < i ==> canonical(#[trigger] shifted@[q]),
        decreases n - i,
    {
        let c = coeffs[i].mul(&shift_power);
        proof {
            let pm = GOLDILOCKS_PRIME as int;
            lemma_small_mod(shift_power.0 as nat, GOLDILOCKS_PRIME as nat);
            lemma_mul_mod_noop_general(fv(coeffs@[i as int]) as int, pow(s, i as nat), pm);
            lemma_mod_twice(pow(s, i as nat), pm);
            assert(c == coset_scaled(coeffs@, s as nat)[i as int]);
            lemma_pow_adds(s, i as nat, 1);
            lemma_pow1(s);
            lemma_small_mod(coset_shift.0 as nat % GOLDILOCKS_PRIME as nat, GOLDILOCKS_PRIME as nat);
            lemma_mul_mod_noop_general(pow(s, i as nat), s, pm);
        }
        shifted.push(c);
        shift_power = shift_power.mul(coset_shift);
        proof {
            assert(shift_power.0 == modp(pow(s, (i + 1) as nat)));
        }
        i = i + 1;
    }
    proof {
        assert(shifted@ =~= coset_scaled(coeffs@, s as nat));
    }
    let ghost before = shifted@;
    ntt(shifted.as_mut_slice());
    proof {
        if n <= 1 {
            assert forall|t: int| 0 <= t < coeffs@.len() implies canonical(#[trigger] shifted@[t]) by {
                assert(shifted@[t] == before[t]);
            }
        }
    }
    shifted
}

/// `Σ_{r < len} f(r)`.
spec fn sum_f(f: spec_fn(nat) -> int, len: nat) -> int
    decreases len,
{
    if len == 0 {
        0
    } else {
        sum_f(f, (len - 1) as nat) + f((len - 1) as nat)
    }
}

proof fn lemma_sum_ext(f: spec_fn(nat) -> int, g: spec_fn(nat) -> int, len: nat)
    requires
        forall|r: nat| r < len ==> #[trigger] f(r) == g(r),
    ensures
        sum_f(f, len) == sum_f(g, len),
    decreases len,
{
    if len > 0 {
        lemma_sum_ext(f, g, (len - 1) as nat);
    }
}

proof fn lemma_sum_congr(f: spec_fn(nat) -> int, g: spec_fn(nat) -> int, len: nat)
    requires
        forall|r: nat| r < len ==> #[trigger] f(r) % (GOLDILOCKS_PRIME as int) == g(r) % (GOLDILOCKS_PRIME as int),
    ensures
        sum_f(f, len) % (GOLDILOCKS_PRIME as int) == sum_f(g, len) % (GOLDILOCKS_PRIME as int),
    decreases len,
{
    if len > 0 {
        let l = (len - 1) as nat;
        lemma_sum_congr(f, g, l);
        lemma_add_mod_noop(sum_f(f, l), f(l), GOLDILOCKS_PRIME as int);
        lemma_add_mod_noop(sum_f(g, l), g(l), GOLDILOCKS_PRIME as int);
    }
}

proof fn lemma_sum_add(f: spec_fn(nat) -> int, g: spec_fn(nat) -> int, len: nat)
    ensures
        sum_f(|r: nat| f(r) + g(r), len) == sum_f(f, len) + sum_f(g, len),
    decreases len,
{
    if len > 0 {
        lemma_sum_add(f, g, (len - 1) as nat);
    }
}

proof fn lemma_sum_scale(f: spec_fn(nat) -> int, c: int, len: nat)
    ensures
        sum_f(|r: nat| c * f(r), len) == c * sum_f(f, len),
    decreases len,
{
    if len > 0 {
        let l = (len - 1) as nat;
        lemma_sum_scale(f, c, l);
        lemma_mul_is_distributive_add(c, sum_f(f, l), f(l));
    }
}

/// A sum over `a + b` terms is the sum over the first `a` plus the sum over the rest.
proof fn lemma_sum_split(f: spec_fn(nat) -> int, a: nat, b: nat)
    ensures
        sum_f(f, a + b) == sum_f(f, a) + sum_f(|t: nat| f(a + t), b),
    decreases b,
{
    if b > 0 {
        let l = (b - 1) as nat;
        lemma_sum_split(f, a, l);
        assert((a + b - 1) as nat == a + l);
    }
}

/// Finite double sums may be taken in either order.
proof fn lemma_sum_swap(g: spec_fn(nat, nat) -> int, n1: nat, n2: nat)
    ensures
        sum_f(|t: nat| sum_f(|j: nat| g(j, t), n1), n2) == sum_f(|j: nat| sum_f(|t: nat| g(j, t), n2), n1),
    decreases n2,
{
    if n2 > 0 {
        let l = (n2 - 1) as nat;
        lemma_sum_swap(g, n1, l);
        let left = |j: nat| sum_f(|t: nat| g(j, t), l);
        let last = |j: nat| g(j, l);
        let whole = |j: nat| sum_f(|t: nat| g(j, t), n2);
        let both = |r: nat| left(r) + last(r);
        lemma_sum_add(left, last, n1);
        assert forall|j: nat| j < n1 implies #[trigger] whole(j) == both(j) by {
            assert(sum_f(|t: nat| g(j, t), n2) == sum_f(|t: nat| g(j, t), l) + g(j, l));
        }
        lemma_sum_ext(whole, both, n1);
        let outer = |t: nat| sum_f(|j: nat| g(j, t), n1);
        assert(sum_f(outer, n2) == sum_f(outer, l) + outer(l));
        assert(outer(l) == sum_f(last, n1)) by {
            assert((|j: nat| g(j, l)) =~= last);
        }
        assert(sum_f(outer, l) == sum_f(left, n1));
        assert(sum_f(both, n1) == sum_f(left, n1) + sum_f(last, n1));
        assert(sum_f(whole, n1) == sum_f(both, n1));
        assert(sum_f(outer, n2) == sum_f(whole, n1));
    } else {
        let whole = |j: nat| sum_f(|t: nat| g(j, t), n2);
        lemma_sum_ext(whole, |j: nat| 0int, n1);
        lemma_sum_scale(|j: nat| 0int, 0, n1);
        lemma_sum_ext(|r: nat| 0 * (|j: nat| 0int)(r), |j: nat| 0int, n1);
    }
}

/// A sum whose terms vanish mod `p` except at `s` is congruent to the term at `s`.
proof fn lemma_sum_single(f: spec_fn(nat) -> int, len: nat, s: nat)
    requires
        s < len,
        forall|r: nat| r < len && r != s ==> #[trigger] f(r) % (GOLDILOCKS_PRIME as int) == 0,
    ensures
        sum_f(f, len) % (GOLDILOCKS_PRIME as int) == f(s) % (GOLDILOCKS_PRIME as int),
    decreases len,
{
    let p = GOLDILOCKS_PRIME as int;
    let l = (len - 1) as nat;
    if s < l {
        lemma_sum_single(f, l, s);
        lemma_add_mod_noop(sum_f(f, l), f(l), p);
        lemma_mod_twice(f(s), p);
    } else {
        assert(sum_f(f, l) % p == 0) by {
            lemma_sum_zero(f, l);
        }
        lemma_add_mod_noop(sum_f(f, l), f(l), p);
        lemma_mod_twice(f(s), p);
    }
}

proof fn lemma_sum_zero(f: spec_fn(nat) -> int, len: nat)
    requires
        forall|r: nat| r < len ==> #[trigger] f(r) % (GOLDILOCKS_PRIME as int) == 0,
    ensures
        sum_f(f, len) % (GOLDILOCKS_PRIME as int) == 0,
    decreases len,
{
    if len > 0 {
        let l = (len - 1) as nat;
        lemma_sum_zero(f, l);
        lemma_add_mod_noop(sum_f(f, l), f(l), GOLDILOCKS_PRIME as int);
    }
}

/// The transform is the sum of its terms `a_j · w^(j·t)`.
proof fn lemma_strided_as_sum(a: Seq<GoldilocksField>, len: nat, w: int, t: nat)
    ensures
        strided_sum(a, 0, 1, len, w, t) == sum_f(|j: nat| fv(a[j as int]) * pow(w, j * t), len),
    decreases len,
{
    if len > 0 {
        lemma_strided_as_sum(a, (len - 1) as nat, w, t);
    }
}

proof fn lemma_even_power_of_minus_one(x: int, e: nat)
    requires
        x % (GOLDILOCKS_PRIME as int) == GOLDILOCKS_PRIME - 1,
        e % 2 == 0,
    ensures
        pow(x, e) % (GOLDILOCKS_PRIME as int) == 1,
{
    let p = GOLDILOCKS_PRIME as int;
    let h = (e / 2) as nat;
    lemma_pow_multiplies(x, 2, h);
    lemma_square_is_pow2(x);
    lemma_mul_mod_noop_general(x, x, p);
    assert(((p - 1) * (p - 1)) % p == 1) by (nonlinear_arith)
        requires
            p == 0xffff_ffff_0000_0001,
    ;
    lemma_pow_mod_noop(pow(x, 2), h, p);
    lemma1_pow(h);
    lemma_small_mod(1, p as nat);
    assert(e == 2 * h);
}

/// Orthogonality of the powers of a primitive `2^k`-th root `w`: `Σ_{t < 2^k} w^(t·d)` is
/// `2^k` when `2^k` divides `d`, and `0` otherwise, mod `p`.
proof fn lemma_orthogonal(w: int, k: nat, d: nat)
    requires
        pow(w, pow2(k)) % (GOLDILOCKS_PRIME as int) == 1,
        k >= 1 ==> pow(w, pow2((k - 1) as nat)) % (GOLDILOCKS_PRIME as int) == GOLDILOCKS_PRIME - 1,
    ensures
        sum_f(|t: nat| pow(w, t * d), pow2(k)) % (GOLDILOCKS_PRIME as int) == (if d % pow2(k) == 0 {
            pow2(k) as int
        } else {
            0
        }) % (GOLDILOCKS_PRIME as int),
    decreases k,
{
    let p = GOLDILOCKS_PRIME as int;
    let f = |t: nat| pow(w, t * d);
    if k == 0 {
        lemma_pow2_zero();
        lemma_pow0(w);
        assert(sum_f(f, 1) == sum_f(f, 0) + f(0));
        assert(f(0) == 1);
    } else {
        let l = pow2((k - 1) as nat);
        let n = pow2(k);
        lemma_pow2_unfold(k);
        lemma_pow2_pos((k - 1) as nat);
        lemma_sum_split(f, l, l);
        let g = |t: nat| f(l + t);
        let wl = pow(w, l * d);
        // f(l + t) = f(t) * w^(l d)
        assert forall|t: nat| #[trigger] g(t) == f(t) * wl by {
            assert((l + t) * d == t * d + l * d) by (nonlinear_arith);
            lemma_pow_adds(w, t * d, l * d);
        }
        lemma_pow_multiplies(w, l, d);
        lemma_pow_mod_noop(pow(w, l), d, p);
        if d % 2 == 1 {
            lemma_small_mod((p - 1) as nat, p as nat);
            lemma_odd_power_of_minus_one(p - 1, d);
            assert(wl % p == p - 1);
            assert forall|t: nat| t < l implies #[trigger] g(t) % p == (|r: nat| -1 * f(r))(t) % p by {
                lemma_mul_minus_one(f(t), wl);
            }
            lemma_sum_congr(g, |r: nat| -1 * f(r), l);
            lemma_sum_scale(f, -1, l);
            lemma_add_mod_noop(sum_f(f, l), sum_f(g, l), p);
            lemma_add_mod_noop(sum_f(f, l), -1 * sum_f(f, l), p);
            assert(d % n != 0) by {
                if d % n == 0 {
                    vstd::arithmetic::div_mod::lemma_fundamental_div_mod(d as int, n as int);
                    let qq = d / n;
                    assert(d == n * qq);
                    assert(d == 2 * (l * qq)) by (nonlinear_arith)
                        requires
                            d == n * qq,
                            n == 2 * l,
                    ;
                }
            }
            lemma_small_mod(0, p as nat);
        } else {
            lemma_small_mod((p - 1) as nat, p as nat);
            lemma_even_power_of_minus_one(p - 1, d);
            assert(wl % p == 1);
            assert forall|t: nat| t < l implies #[trigger] g(t) % p == f(t) % p by {
                lemma_mul_by_one_mod(f(t), wl);
            }
            lemma_sum_congr(g, f, l);
            // f(t) = (w^2)^(t h) with d = 2 h
            let h = d / 2;
            let w2 = pow(w, 2);
            let f2 = |t: nat| pow(w2, t * h);
            assert forall|t: nat| #[trigger] f(t) == f2(t) by {
                lemma_pow_multiplies(w, 2, t * h);
                assert(t * d == 2 * (t * h)) by (nonlinear_arith)
                    requires
                        d == 2 * h,
                ;
            }
            lemma_sum_ext(f, f2, l);
            lemma_pow_multiplies(w, 2, l);
            assert(2 * l == n);
            if k >= 2 {
                lemma_pow2_unfold((k - 1) as nat);
                lemma_pow_multiplies(w, 2, pow2((k - 2) as nat));
                assert(2 * pow2((k - 2) as nat) == l);
                assert((k - 1 - 1) as nat == (k - 2) as nat);
            }
            lemma_orthogonal(w2, (k - 1) as nat, h);
            let sl = sum_f(f, l);
            lemma_add_mod_noop(sl, sum_f(g, l), p);
            lemma_add_mod_noop(sl, sl, p);
            // 2·(h % l == 0 ? l : 0) == (d % n == 0 ? n : 0)
            let q = h / l;
            let r = h % l;
            vstd::arithmetic::div_mod::lemma_fundamental_div_mod(h as int, l as int);
            lemma_mod_bound(h as int, l as int);
            assert(d == q * n + 2 * r) by (nonlinear_arith)
                requires
                    h == l * q + r,
                    d == 2 * h,
                    n == 2 * l,
            ;
            lemma_fundamental_div_mod_converse(d as int, n as int, q as int, (2 * r) as int);
            let v = if h % l == 0 {
                l as int
            } else {
                0
            };
            assert((sl + sl) % p == (2 * v) % p) by {
                lemma_add_mod_noop(sl, sl, p);
                lemma_add_mod_noop(v, v, p);
            }
        }
    }
}

/// `(ω^(p-2))^x = ω^((n-1)·x)` mod `p` when `ω^n = 1` and `n` divides `p - 1`.
proof fn lemma_inverse_root_power(om: int, n: nat, x: nat)
    requires
        n >= 1,
        (GOLDILOCKS_PRIME - 1) as nat % n == 0,
        pow(om, n) % (GOLDILOCKS_PRIME as int) == 1,
    ensures
        pow(modp(pow(om, (GOLDILOCKS_PRIME - 2) as nat)) as int, x) % (GOLDILOCKS_PRIME as int) == pow(
            om,
            ((n - 1) * x) as nat,
        ) % (GOLDILOCKS_PRIME as int),
{
    let p = GOLDILOCKS_PRIME as int;
    let q = (GOLDILOCKS_PRIME - 2) as nat;
    let c = ((GOLDILOCKS_PRIME - 1) as nat / n - 1) as nat;
    vstd::arithmetic::div_mod::lemma_fundamental_div_mod((GOLDILOCKS_PRIME - 1) as int, n as int);
    let qq = (GOLDILOCKS_PRIME - 1) as nat / n;
    assert(qq >= 1) by {
        if qq == 0 {
            assert((GOLDILOCKS_PRIME - 1) as int == n * 0 + 0);
        }
    }
    assert(q == (n - 1) + n * c) by (nonlinear_arith)
        requires
            (GOLDILOCKS_PRIME - 1) as int == n * qq,
            c == qq - 1,
            q == GOLDILOCKS_PRIME - 2,
    ;
    let pq = pow(om, q);
    lemma_pow_mod_noop(pq, x, p);
    lemma_pow_multiplies(om, q, x);
    assert(q * x == (n - 1) * x + n * (c * x)) by (nonlinear_arith)
        requires
            q == (n - 1) + n * c,
    ;
    lemma_pow_adds(om, ((n - 1) * x) as nat, n * (c * x));
    lemma_pow_multiplies(om, n, c * x);
    lemma_pow_mod_noop(pow(om, n), c * x, p);
    lemma1_pow(c * x);
    lemma_small_mod(1, p as nat);
    lemma_mul_by_one_mod(pow(om, ((n - 1) * x) as nat), pow(om, n * (c * x)));
}

/// `n^(p-2) · n = 1` mod `p` for `n = 2^k`.
proof fn lemma_size_inverse(k: nat)
    ensures
        ((field_inverse(pow2(k)) * pow2(k)) as int) % (GOLDILOCKS_PRIME as int) == 1,
{
    let p = GOLDILOCKS_PRIME as int;
    let n = pow2(k);
    let q = (GOLDILOCKS_PRIME - 2) as nat;
    lemma_power_facts();
    lemma_mul_mod_noop_general(pow(n as int, q), n as int, p);
    lemma_mod_twice(pow(n as int, q), p);
    lemma_pow1(n as int);
    lemma_pow_adds(n as int, q, 1);
    vstd::arithmetic::power2::lemma_pow2(k);
    lemma_pow_multiplies(2, k, (q + 1) as nat);
    lemma_pow_multiplies(2, (q + 1) as nat, k);
    assert(k * (q + 1) == (q + 1) * k) by (nonlinear_arith);
    lemma_pow_mod_noop(pow(2, (q + 1) as nat), k, p);
    lemma1_pow(k);
    lemma_small_mod(1, p as nat);
    assert((q + 1) as nat == (GOLDILOCKS_PRIME - 1) as nat);
    assert(pow(n as int, q) * n == pow(n as int, (q + 1) as nat));
}

/// `n` divides `j + (n-1)·s` exactly when `j == s`, for `j, s < n`.
proof fn lemma_delta(j: nat, s: nat, n: nat)
    requires
        j < n,
        s < n,
    ensures
        ((j + (n - 1) * s) as nat % n == 0) == (j == s),
{
    let d = (j + (n - 1) * s) as nat;
    if j >= s {
        assert(d == s * n + (j - s)) by (nonlinear_arith)
            requires
                d == j + (n - 1) * s,
                j >= s,
        ;
        lemma_fundamental_div_mod_converse(d as int, n as int, s as int, (j - s) as int);
    } else {
        assert(d == (s - 1) * n + (n + j - s)) by (nonlinear_arith)
            requires
                d == j + (n - 1) * s,
                j < s,
        ;
        lemma_fundamental_div_mod_converse(d as int, n as int, (s - 1) as int, (n + j - s) as int);
    }
}

proof fn lemma_roundtrip_at(a: Seq<GoldilocksField>, b: Seq<GoldilocksField>, s: nat)
    requires
        power_of_two(a.len()),
        a.len() <= pow2(32),
        b.len() == a.len(),
        s < a.len(),
        forall|t: int| 0 <= t < a.len() ==> fv(#[trigger] b[t]) == modp(dft(a, root_of_unity(a.len()) as int, t as nat)),
    ensures
        modp(field_inverse(a.len()) * dft(b, field_inverse(root_of_unity(a.len())) as int, s)) == fv(a[s as int]),
{
    let p = GOLDILOCKS_PRIME as int;
    let n = a.len();
    lemma_log_bound(n);
    let k = log2_of(n);
    lemma_root_facts(k);
    lemma_pow2_pos(k);
    let om = root_of_unity(n) as int;
    let oi = field_inverse(root_of_unity(n)) as int;
    let ni = field_inverse(n) as int;
    // the inverse transform of b as a sum over t
    lemma_strided_as_sum(b, n, oi, s);
    let outer = |t: nat| fv(b[t as int]) * pow(oi, t * s);
    let gg = |j: nat, t: nat| pow(oi, t * s) * (fv(a[j as int]) * pow(om, j * t));
    let inner = |t: nat| sum_f(|j: nat| gg(j, t), n);
    // term by term, b_t may be replaced by the transform of a
    assert forall|t: nat| t < n implies #[trigger] outer(t) % p == inner(t) % p by {
        let dt = dft(a, om, t);
        lemma_strided_as_sum(a, n, om, t);
        let terms = |j: nat| fv(a[j as int]) * pow(om, j * t);
        lemma_sum_scale(terms, pow(oi, t * s), n);
        lemma_sum_ext(|r: nat| pow(oi, t * s) * terms(r), |j: nat| gg(j, t), n);
        lemma_mul_mod_noop_general(fv(b[t as int]) as int, pow(oi, t * s), p);
        lemma_mul_mod_noop_general(dt, pow(oi, t * s), p);
        lemma_mod_twice(dt, p);
        lemma_mul_is_commutative(dt, pow(oi, t * s));
        assert(inner(t) == pow(oi, t * s) * dt);
    }
    lemma_sum_congr(outer, inner, n);
    lemma_sum_swap(gg, n, n);
    let col = |j: nat| sum_f(|t: nat| gg(j, t), n);
    // each column collapses by orthogonality
    assert forall|j: nat| j < n && j != s implies #[trigger] col(j) % p == 0 by {
        lemma_column(a, j, s, n, k, om);
    }
    lemma_column(a, s, s, n, k, om);
    lemma_sum_single(col, n, s);
    // the inverse of n cancels the factor n
    let x = fv(a[s as int]) as int;
    let total = sum_f(col, n);
    assert(total % p == (x * n) % p);
    assert(dft(b, oi, s) % p == total % p);
    lemma_size_inverse(k);
    lemma_mul_mod_noop_general(ni, dft(b, oi, s), p);
    lemma_mul_mod_noop_general(ni, total, p);
    lemma_mul_mod_noop_general(ni, x * n, p);
    assert(ni * (x * n) == x * (ni * n)) by (nonlinear_arith);
    lemma_mul_by_one_mod(x, ni * n);
    lemma_small_mod(x as nat, p as nat);
}

/// Column `j` of the double sum: `Σ_t ω^(-t·s) · a_j · ω^(j·t)` is `n · a_j` when `j == s` and
/// `0` otherwise, mod `p`.
proof fn lemma_column(a: Seq<GoldilocksField>, j: nat, s: nat, n: nat, k: nat, om: int)
    requires
        n == a.len() == pow2(k),
        k <= 32,
        j < n,
        s < n,
        om == root_of_unity(n) as int,
        (GOLDILOCKS_PRIME - 1) as nat % n == 0,
        pow(om, n) % (GOLDILOCKS_PRIME as int) == 1,
        k >= 1 ==> pow(om, pow2((k - 1) as nat)) % (GOLDILOCKS_PRIME as int) == GOLDILOCKS_PRIME - 1,
    ensures
        ({
            let oi = field_inverse(root_of_unity(n)) as int;
            let gg = |j: nat, t: nat| pow(oi, t * s) * (fv(a[j as int]) * pow(om, j * t));
            &&& j != s ==> sum_f(|t: nat| gg(j, t), n) % (GOLDILOCKS_PRIME as int) == 0
            &&& j == s ==> sum_f(|t: nat| gg(j, t), n) % (GOLDILOCKS_PRIME as int) == ((fv(a[j as int]) * n) as int)
                % (GOLDILOCKS_PRIME as int)
        }),
{
    let p = GOLDILOCKS_PRIME as int;
    let oi = field_inverse(root_of_unity(n)) as int;
    let gg = |j: nat, t: nat| pow(oi, t * s) * (fv(a[j as int]) * pow(om, j * t));
    let x = fv(a[j as int]) as int;
    let d = (j + (n - 1) * s) as nat;
    let col = |t: nat| gg(j, t);
    let ph = |t: nat| pow(om, t * d);
    let h = |t: nat| x * ph(t);
    lemma_pow2_pos(k);
    assert forall|t: nat| #[trigger] col(t) % p == h(t) % p by {
        lemma_inverse_root_power(om, n, t * s);
        lemma_mul_mod_noop_general(pow(oi, t * s), x * pow(om, j * t), p);
        lemma_mul_mod_noop_general(pow(om, ((n - 1) * (t * s)) as nat), x * pow(om, j * t), p);
        assert(j * t + (n - 1) * (t * s) == t * d) by (nonlinear_arith)
            requires
                d == j + (n - 1) * s,
        ;
        lemma_pow_adds(om, j * t, ((n - 1) * (t * s)) as nat);
        assert(pow(om, ((n - 1) * (t * s)) as nat) * (x * pow(om, j * t)) == x * (pow(om, j * t) * pow(
            om,
            ((n - 1) * (t * s)) as nat,
        ))) by (nonlinear_arith);
    }
    lemma_sum_congr(col, h, n);
    lemma_sum_scale(ph, x, n);
    lemma_orthogonal(om, k, d);
    lemma_delta(j, s, n);
    let v = if d % n == 0 {
        n as int
    } else {
        0
    };
    lemma_mul_mod_noop_general(x, sum_f(ph, n), p);
    lemma_mul_mod_noop_general(x, v, p);
}

/// The inverse transform undoes the transform: when `b` is the transform of `a` (of
/// power-of-two length `n <= 2^32`), `n⁻¹ · Σ_t b_t · ω^(-t·s) = a_s` mod `p` for every `s`.
pub proof fn law_ntt_roundtrip(a: Seq<GoldilocksField>, b: Seq<GoldilocksField>)
    requires
        power_of_two(a.len()),
        a.len() <= pow2(32),
        b.len() == a.len(),
        forall|t: int| 0 <= t < a.len() ==> fv(#[trigger] b[t]) == modp(dft(a, root_of_unity(a.len()) as int, t as nat)),
    ensures
        forall|s: int|
            0 <= s < a.len() ==> modp(
                field_inverse(a.len()) * dft(b, field_inverse(root_of_unity(a.len())) as int, s as nat),
            ) == #[trigger] fv(a[s]),
{
    assert forall|s: int| 0 <= s < a.len() implies modp(
        field_inverse(a.len()) * dft(b, field_inverse(root_of_unity(a.len())) as int, s as nat),
    ) == #[trigger] fv(a[s]) by {
        lemma_roundtrip_at(a, b, s as nat);
    }
}


/// The round trip on stored words: for canonical coefficients `a`, when `b` is what `ntt`
/// leaves of `a` and `c` is what `intt` leaves of `b`, then `c` is `a` word for word.
pub proof fn law_ntt_roundtrip_words(a: Seq<GoldilocksField>, b: Seq<GoldilocksField>, c: Seq<GoldilocksField>)
    requires
        power_of_two(a.len()),
        a.len() <= pow2(32),
        forall|i: int| 0 <= i < a.len() ==> canonical(#[trigger] a[i]),
        b.len() == a.len(),
        forall|t: int| 0 <= t < a.len() ==> fv(#[trigger] b[t]) == modp(dft(a, root_of_unity(a.len()) as int, t as nat)),
        a.len() <= 1 ==> b == a,
        c.len() == b.len(),
        forall|t: int|
            0 <= t < b.len() ==> fv(#[trigger] c[t]) == modp(
                field_inverse(b.len()) * dft(b, field_inverse(root_of_unity(b.len())) as int, t as nat),
            ),
        b.len() > 1 ==> forall|t: int| 0 <= t < b.len() ==> canonical(#[trigger] c[t]),
        b.len() <= 1 ==> c == b,
    ensures
        c == a,
{
    if a.len() > 1 {
        law_ntt_roundtrip(a, b);
        assert forall|s: int| 0 <= s < a.len() implies c[s] == a[s] by {
            assert(fv(c[s]) == fv(a[s]));
            assert(canonical(c[s]) && canonical(a[s]));
            lemma_small_mod(c[s].0 as nat, GOLDILOCKS_PRIME as nat);
            lemma_small_mod(a[s].0 as nat, GOLDILOCKS_PRIME as nat);
        }
        assert(c =~= a);
    }
}

} // verus!
