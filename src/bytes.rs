//! Fixed-width big-endian byte encoding of unsigned integers.
use vstd::arithmetic::div_mod::{
    lemma_div_denominator, lemma_fundamental_div_mod, lemma_fundamental_div_mod_converse,
    lemma_multiply_divide_lt,
};
use vstd::arithmetic::power::{lemma_pow_increases, lemma_pow_positive, pow};
use vstd::prelude::*;

verus! {

/// Byte `i` (counting from the most significant) of the `n`-byte big-endian form of `x`.
pub open spec fn be_digit(x: nat, n: nat, i: nat) -> u8 {
    ((x / pow(256, (n - 1 - i) as nat) as nat) % 256) as u8
}

/// The `n`-byte big-endian form of `x` (the high bytes of `x` beyond `n` are dropped).
pub open spec fn be_bytes(x: nat, n: nat) -> Seq<u8> {
    Seq::new(n, |i: int| be_digit(x, n, i as nat))
}

/// The unsigned number whose big-endian bytes are `s`.
pub open spec fn be_value(s: Seq<u8>) -> nat
    decreases s.len(),
{
    if s.len() == 0 {
        0
    } else {
        be_value(s.drop_last()) * 256 + s.last() as nat
    }
}


/// Dividing by 256 and then by `256^k` is dividing by `256^(k + 1)`.
proof fn lemma_div_pow_step(x: nat, k: nat)
    ensures
        x / pow(256, k) as nat / 256 == x / pow(256, k + 1) as nat,
        pow(256, k + 1) == pow(256, k) * 256,
        pow(256, k) > 0,
{
    lemma_pow_positive(256, k);
    reveal(pow);
    assert(pow(256, k + 1) == 256 * pow(256, k));
    lemma_div_denominator(x as int, pow(256, k), 256);
}

/// The big-endian form of `x` is the form of `x / 256` followed by the low byte of `x`.
proof fn lemma_be_bytes_split(x: nat, n: nat)
    requires
        n > 0,
    ensures
        be_bytes(x, n).drop_last() == be_bytes(x / 256, (n - 1) as nat),
        be_bytes(x, n).last() == (x % 256) as u8,
{
    let a = be_bytes(x, n).drop_last();
    let b = be_bytes(x / 256, (n - 1) as nat);
    assert forall|i: int| 0 <= i < n - 1 implies a[i] == b[i] by {
        let k = (n - 2 - i) as nat;
        lemma_div_pow_step(x, k);
        lemma_div_denominator(x as int, 256, pow(256, k));
        assert(256 * pow(256, k) == pow(256, k + 1));
    }
    assert(a =~= b);
    reveal(pow);
    assert(pow(256, 0) == 1);
    assert(x / 1 == x);
    assert(be_bytes(x, n).last() == be_digit(x, n, (n - 1) as nat));
}

/// Reading back the `n`-byte big-endian form of a number below `256^n` gives the number.
pub proof fn lemma_be_value_of_bytes(x: nat, n: nat)
    requires
        x < pow(256, n),
    ensures
        be_value(be_bytes(x, n)) == x,
    decreases n,
{
    if n == 0 {
        reveal(pow);
    } else {
        lemma_be_bytes_split(x, n);
        let m = (n - 1) as nat;
        lemma_div_pow_step(x, m);
        lemma_pow_positive(256, m);
        assert(x / 256 < pow(256, m)) by {
            lemma_multiply_divide_lt(x as int, 256, pow(256, m));
        }
        lemma_be_value_of_bytes(x / 256, m);
        lemma_fundamental_div_mod(x as int, 256);
    }
}

/// Writing back the number read from `s`, at the width of `s`, gives `s`.
pub proof fn lemma_be_bytes_of_value(s: Seq<u8>)
    ensures
        be_bytes(be_value(s), s.len()) == s,
    decreases s.len(),
{
    let x = be_value(s);
    let n = s.len();
    if n == 0 {
        assert(be_bytes(x, n) =~= s);
    } else {
        let init = s.drop_last();
        lemma_be_value_of_drop_last(init, s.last());
        lemma_be_bytes_split(x, n);
        lemma_be_bytes_of_value(init);
        let e = be_bytes(x, n);
        assert forall|i: int| 0 <= i < n implies e[i] == s[i] by {
            if i < n - 1 {
                assert(e.drop_last()[i] == init[i]);
            }
        }
        assert(e =~= s);
    }
}

/// Splitting the number read from `init` followed by `b` into quotient and remainder by 256.
proof fn lemma_be_value_of_drop_last(init: Seq<u8>, b: u8)
    ensures
        (be_value(init) * 256 + b as nat) / 256 == be_value(init),
        (be_value(init) * 256 + b as nat) % 256 == b as nat,
{
    lemma_fundamental_div_mod_converse(
        (be_value(init) * 256 + b as nat) as int,
        256,
        be_value(init) as int,
        b as int,
    );
}

/// The number read from `s` is below `256^|s|`.
pub proof fn lemma_be_value_bound(s: Seq<u8>)
    ensures
        be_value(s) < pow(256, s.len()),
    decreases s.len(),
{
    reveal(pow);
    if s.len() > 0 {
        lemma_be_value_bound(s.drop_last());
        let p = pow(256, (s.len() - 1) as nat);
        assert(be_value(s.drop_last()) * 256 + s.last() < p * 256) by (nonlinear_arith)
            requires
                be_value(s.drop_last()) < p,
                s.last() < 256,
        ;
        assert(pow(256, s.len()) == 256 * p);
    }
}

/// Writes the `n`-byte big-endian form of `x`.
pub fn encode_be(x: u64, n: usize) -> (r: Vec<u8>)
    requires
        n <= 8,
    ensures
        r@ == be_bytes(x as nat, n as nat),
{
    let mut out: Vec<u8> = vec![0u8; n];
    let mut i: usize = n;
    let mut v: u64 = x;
    proof {
        reveal(pow);
        assert(pow(256, 0) == 1);
        assert(x as nat / 1 == x as nat);
    }
    while i > 0
        invariant
            i <= n,
            out@.len() == n,
            v as nat == x as nat / pow(256, (n - i) as nat) as nat,
            forall|j: int| i <= j < n ==> out@[j] == be_digit(x as nat, n as nat, j as nat),
        decreases i,
    {
        i = i - 1;
        proof {
            lemma_div_pow_step(x as nat, (n - 1 - i) as nat);
        }
        out.set(i, (v % 256) as u8);
        v = v / 256;
    }
    assert(out@ =~= be_bytes(x as nat, n as nat));
    out
}

/// Reads the unsigned number whose big-endian bytes are the first `n` of `bytes`.
pub fn decode_be(bytes: &[u8], n: usize) -> (r: u64)
    requires
        n <= 8,
        n <= bytes@.len(),
    ensures
        r as nat == be_value(bytes@.take(n as int)),
{
    let mut acc: u64 = 0;
    let mut i: usize = 0;
    while i < n
        invariant
            i <= n,
            n <= 8,
            n <= bytes@.len(),
            acc as nat == be_value(bytes@.take(i as int)),
        decreases n - i,
    {
        proof {
            lemma_be_value_bound(bytes@.take(i as int));
            lemma_pow_increases(256, i as nat, 7);
            reveal_with_fuel(pow, 8);
            assert(pow(256, 7) == 0x100000000000000int);
            assert(bytes@.take(i + 1).drop_last() =~= bytes@.take(i as int));
        }
        acc = acc * 256 + bytes[i] as u64;
        i = i + 1;
    }
    acc
}

} // verus!
