//! Integer facts behind the shape of an RFC 6962 tree: bit lengths, powers
//! of two, and the split point of a tree of a given size.
use vstd::prelude::*;
use vstd::arithmetic::power2::*;
use vstd::arithmetic::div_mod::{lemma_mod_mod, lemma_mod_multiples_basic, lemma_fundamental_div_mod_converse, lemma_mod_breakdown, lemma_fundamental_div_mod};

verus! {

/// Number of binary digits of `x` (0 for 0).
pub open spec fn bit_len(x: nat) -> nat
    decreases x,
{
    if x == 0 {
        0
    } else {
        1 + bit_len(x / 2)
    }
}

/// The largest power of two strictly less than `n` (for `n >= 2`).
pub open spec fn split_point(n: nat) -> nat {
    pow2((bit_len((n - 1) as nat) - 1) as nat)
}

/// Whether bit `l` of `x` is set.
pub open spec fn bit_set(x: nat, l: nat) -> bool {
    (x / pow2(l)) % 2 == 1
}

/// One more power of two is twice the last.
pub proof fn lemma_pow2_step(e: nat)
    ensures
        pow2(e + 1) == 2 * pow2(e),
        pow2(e) >= 1,
        pow2(0) == 1,
{
    lemma_pow2_unfold(e + 1);
    lemma_pow2_pos(e);
    lemma2_to64();
}

/// A positive number lies between the powers of two around its bit length.
pub proof fn lemma_bit_len_bounds(x: nat)
    requires
        x >= 1,
    ensures
        bit_len(x) >= 1,
        pow2((bit_len(x) - 1) as nat) <= x < pow2(bit_len(x)),
    decreases x,
{
    lemma_pow2_step(0);
    if x == 1 {
        assert(bit_len(0) == 0);
        lemma_pow2_step(1);
    } else {
        lemma_bit_len_bounds(x / 2);
        let b = bit_len(x / 2);
        lemma_pow2_step((b - 1) as nat);
        lemma_pow2_step(b);
    }
}

/// The bit length is the one exponent that brackets the number.
pub proof fn lemma_bit_len_unique(x: nat, e: nat)
    requires
        pow2(e) <= x < pow2(e + 1),
    ensures
        bit_len(x) == e + 1,
    decreases e,
{
    lemma_pow2_step(e);
    if e == 0 {
        assert(x == 1);
        assert(bit_len(0) == 0);
    } else {
        lemma_pow2_step((e - 1) as nat);
        lemma_bit_len_unique(x / 2, (e - 1) as nat);
    }
}

/// `x` is below `2^bit_len(x)`; bits at or above `bit_len(x)` are clear.
pub proof fn lemma_below_bit_len(x: nat)
    ensures
        x < pow2(bit_len(x)),
{
    lemma_pow2_step(0);
    if x >= 1 {
        lemma_bit_len_bounds(x);
    }
}

/// The split point of a tree of two or more leaves lies strictly inside it.
pub proof fn lemma_split_point_bounds(n: nat)
    requires
        n >= 2,
    ensures
        1 <= split_point(n) < n <= 2 * split_point(n),
        split_point(n) == pow2((bit_len((n - 1) as nat) - 1) as nat),
        pow2(bit_len((n - 1) as nat)) == 2 * split_point(n),
{
    lemma_bit_len_bounds((n - 1) as nat);
    let e = (bit_len((n - 1) as nat) - 1) as nat;
    lemma_pow2_step(e);
}

/// The split point is the unique power of two `p` with `p < n <= 2p`.
pub proof fn lemma_split_point_unique(n: nat, e: nat)
    requires
        pow2(e) < n <= pow2(e + 1),
    ensures
        split_point(n) == pow2(e),
{
    lemma_bit_len_unique((n - 1) as nat, e);
}


/// `pow2(i) == pow2(j) * pow2(i - j)` for `j <= i`.
pub proof fn lemma_pow2_split(j: nat, i: nat)
    requires
        j <= i,
    ensures
        pow2(i) == pow2(j) * pow2((i - j) as nat),
        pow2(j) <= pow2(i),
{
    lemma_pow2_adds(j, (i - j) as nat);
    lemma_pow2_pos((i - j) as nat);
    lemma_pow2_pos(j);
    assert(pow2(j) * 1 <= pow2(j) * pow2((i - j) as nat)) by (nonlinear_arith)
        requires
            pow2((i - j) as nat) >= 1,
    ;
}

/// Reducing modulo a larger power of two first does not change the residue.
pub proof fn lemma_mod_mod_pow2(x: nat, j: nat, i: nat)
    requires
        j <= i,
    ensures
        (x % pow2(i)) % pow2(j) == x % pow2(j),
{
    lemma_pow2_split(j, i);
    lemma_pow2_pos(j);
    lemma_pow2_pos((i - j) as nat);
    lemma_mod_mod(x as int, pow2(j) as int, pow2((i - j) as nat) as int);
}

/// Residues of `2^i` and `2^i - 1` modulo `2^j` for `j <= i`.
pub proof fn lemma_pow2_mod_pow2(j: nat, i: nat)
    requires
        j <= i,
    ensures
        pow2(i) % pow2(j) == 0,
        (pow2(i) - 1) as nat % pow2(j) == pow2(j) - 1,
{
    lemma_pow2_split(j, i);
    lemma_pow2_pos(j);
    let q = pow2((i - j) as nat) as int;
    let m = pow2(j) as int;
    lemma_pow2_pos((i - j) as nat);
    assert(q * m == m * q) by (nonlinear_arith);
    lemma_mod_multiples_basic(q, m);
    assert(pow2(i) - 1 == (q - 1) * m + (m - 1)) by (nonlinear_arith)
        requires
            pow2(i) == m * q,
    ;
    lemma_fundamental_div_mod_converse(pow2(i) - 1, m, q - 1, m - 1);
}

/// Bit `l` of `x` decides whether `x mod 2^(l+1)` reaches `2^l`.
pub proof fn lemma_bit_set_mod(x: nat, l: nat)
    ensures
        x % pow2(l) < pow2(l),
        x % pow2(l + 1) == x % pow2(l) + (if bit_set(x, l) { pow2(l) } else { 0 }),
        bit_set(x, l) <==> x % pow2(l + 1) >= pow2(l),
        x % pow2(l + 1) < pow2(l + 1),
{
    lemma_pow2_step(l);
    lemma_pow2_pos(l);
    lemma_mod_breakdown(x as int, pow2(l) as int, 2);
    assert(pow2(l) * 2 == pow2(l + 1));
    let b = (x / pow2(l)) % 2;
    assert(b == 0 || b == 1);
    if b == 0 {
        assert(pow2(l) * b == 0) by (nonlinear_arith)
            requires
                b == 0,
        ;
    } else {
        assert(pow2(l) * b == pow2(l)) by (nonlinear_arith)
            requires
                b == 1,
        ;
    }
}

/// Adding one to `x` increments its residue unless the residue wraps.
pub proof fn lemma_mod_succ(x: nat, m: nat)
    requires
        m > 0,
    ensures
        x % m < m - 1 ==> (x + 1) % m == x % m + 1 && (x + 1) - (x + 1) % m == x - x % m,
        x % m == m - 1 ==> (x + 1) % m == 0,
{
    lemma_fundamental_div_mod(x as int, m as int);
    let q = x / m;
    let r = x % m;
    assert(m * q == q * m) by (nonlinear_arith);
    if r < m - 1 {
        lemma_fundamental_div_mod_converse((x + 1) as int, m as int, q as int, (r + 1) as int);
    } else if r == m - 1 {
        assert(x + 1 == (q + 1) * m + 0) by (nonlinear_arith)
            requires
                x == m * q + r,
                r == m - 1,
        ;
        lemma_fundamental_div_mod_converse((x + 1) as int, m as int, (q + 1) as int, 0);
    }
}

/// A value below `2^n` is its own residue; bits at or above `n` are clear.
pub proof fn lemma_small_mod_pow2(x: nat, n: nat)
    requires
        x < pow2(n),
    ensures
        x % pow2(n) == x,
        forall|l: nat| l >= n ==> !#[trigger] bit_set(x, l),
{
    lemma_pow2_pos(n);
    vstd::arithmetic::div_mod::lemma_small_mod(x, pow2(n));
    assert forall|l: nat| l >= n implies !#[trigger] bit_set(x, l) by {
        lemma_pow2_split(n, l);
        lemma_pow2_pos(l);
        vstd::arithmetic::div_mod::lemma_basic_div(x as int, pow2(l) as int);
        assert(x / pow2(l) == 0);
    }
}

/// A set bit lies below the bit length.
pub proof fn lemma_bit_set_below(x: nat, l: nat, n: nat)
    requires
        bit_set(x, l),
        x < pow2(n),
    ensures
        l < n,
{
    if l >= n {
        lemma_small_mod_pow2(x, n);
    }
}


/// A residue never exceeds the value.
pub proof fn lemma_mod_le(x: nat, m: nat)
    requires
        m > 0,
    ensures
        x % m <= x,
{
    lemma_fundamental_div_mod(x as int, m as int);
    assert(m * (x / m) >= 0) by (nonlinear_arith)
        requires
            m > 0,
    ;
}

} // verus!


