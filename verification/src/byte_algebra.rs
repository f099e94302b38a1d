//! Byte sequences under XOR: the group in which shares are added up.
use vstd::prelude::*;
use vstd::seq_lib::{commutative_foldl, lemma_fold_left_permutation};

verus! {

/// The sequence of `n` zero bytes.
pub open spec fn zero_bytes(n: nat) -> Seq<u8> {
    Seq::new(n, |i: int| 0u8)
}

/// Byte-wise XOR of `b` into `a`: as long as `a`, and equal to `a` beyond
/// the end of `b`.
pub open spec fn xor_bytes(a: Seq<u8>, b: Seq<u8>) -> Seq<u8> {
    Seq::new(
        a.len(),
        |i: int|
            if i < b.len() {
                a[i] ^ b[i]
            } else {
                a[i]
            },
    )
}

/// XOR of all the sequences in `vs`, each of length `n`; the zero sequence
/// when `vs` is empty.
pub open spec fn xor_all(vs: Seq<Seq<u8>>, n: nat) -> Seq<u8>
    decreases vs.len(),
{
    if vs.len() == 0 {
        zero_bytes(n)
    } else {
        xor_bytes(xor_all(vs.drop_last(), n), vs.last())
    }
}

/// The laws of XOR on single bytes.
pub proof fn lemma_xor_byte_laws(a: u8, b: u8, c: u8)
    ensures
        a ^ b == b ^ a,
        (a ^ b) ^ c == a ^ (b ^ c),
        a ^ a == 0u8,
        a ^ 0u8 == a,
        0u8 ^ a == a,
{
    assert(a ^ b == b ^ a) by (bit_vector);
    assert((a ^ b) ^ c == a ^ (b ^ c)) by (bit_vector);
    assert(a ^ a == 0u8) by (bit_vector);
    assert(a ^ 0u8 == a) by (bit_vector);
    assert(0u8 ^ a == a) by (bit_vector);
}

/// A byte sequence is its own inverse, and the zero sequence is neutral.
pub proof fn lemma_xor_bytes_cancels(a: Seq<u8>)
    ensures
        xor_bytes(a, a) == zero_bytes(a.len()),
        xor_bytes(a, zero_bytes(a.len())) == a,
        xor_bytes(zero_bytes(a.len()), a) == a,
{
    assert forall|i: int| 0 <= i < a.len() implies (a[i] ^ a[i]) == 0u8 && (a[i] ^ 0u8) == a[i]
        && (0u8 ^ a[i]) == a[i] by {
        lemma_xor_byte_laws(a[i], 0u8, 0u8);
    }
    assert(xor_bytes(a, a) =~= zero_bytes(a.len()));
    assert(xor_bytes(a, zero_bytes(a.len())) =~= a);
    assert(xor_bytes(zero_bytes(a.len()), a) =~= a);
}

/// The XOR of sequences of length `n` has length `n`.
pub proof fn lemma_xor_all_len(vs: Seq<Seq<u8>>, n: nat)
    ensures
        xor_all(vs, n).len() == n,
    decreases vs.len(),
{
    if vs.len() > 0 {
        lemma_xor_all_len(vs.drop_last(), n);
    }
}

/// The byte that `v` adds at position `i` of an XOR: `v[i]`, or zero
/// beyond the end of `v`.
pub open spec fn byte_at(v: Seq<u8>, i: int) -> u8 {
    if 0 <= i < v.len() {
        v[i]
    } else {
        0u8
    }
}

/// XOR of `f(0)`, ..., `f(n - 1)`.
pub open spec fn xor_sum(f: spec_fn(int) -> u8, n: nat) -> u8
    decreases n,
{
    if n == 0 {
        0u8
    } else {
        xor_sum(f, (n - 1) as nat) ^ f(n - 1)
    }
}

/// XOR over all `a < rows` and `b < cols` of `m(a, b)`.
pub open spec fn xor_square(m: spec_fn(int, int) -> u8, rows: nat, cols: nat) -> u8 {
    xor_sum(|a: int| xor_sum(|b: int| m(a, b), cols), rows)
}

/// Two functions that agree below `n` have the same XOR up to `n`.
pub proof fn lemma_xor_sum_agrees(f: spec_fn(int) -> u8, g: spec_fn(int) -> u8, n: nat)
    requires
        forall|j: int| 0 <= j < n ==> #[trigger] f(j) == g(j),
    ensures
        xor_sum(f, n) == xor_sum(g, n),
    decreases n,
{
    if n > 0 {
        lemma_xor_sum_agrees(f, g, (n - 1) as nat);
    }
}

/// Where `fg` is the pointwise XOR of `f` and `g`, its XOR is the XOR of
/// the XORs of `f` and of `g`.
pub proof fn lemma_xor_sum_splits(
    f: spec_fn(int) -> u8,
    g: spec_fn(int) -> u8,
    fg: spec_fn(int) -> u8,
    n: nat,
)
    requires
        forall|j: int| 0 <= j < n ==> #[trigger] fg(j) == f(j) ^ g(j),
    ensures
        xor_sum(fg, n) == xor_sum(f, n) ^ xor_sum(g, n),
    decreases n,
{
    if n == 0 {
        lemma_xor_byte_laws(0u8, 0u8, 0u8);
    } else {
        lemma_xor_sum_splits(f, g, fg, (n - 1) as nat);
        let a = xor_sum(f, (n - 1) as nat);
        let b = xor_sum(g, (n - 1) as nat);
        let x = f(n - 1);
        let y = g(n - 1);
        assert((a ^ b) ^ (x ^ y) == (a ^ x) ^ (b ^ y)) by (bit_vector);
        assert(fg(n - 1) == x ^ y);
    }
}

/// Byte `i` of the XOR of `vs` is the XOR of what each of `vs` adds there,
/// which `f` gives.
pub proof fn lemma_xor_all_at(vs: Seq<Seq<u8>>, n: nat, i: int, f: spec_fn(int) -> u8)
    requires
        0 <= i < n,
        forall|j: int| 0 <= j < vs.len() ==> #[trigger] f(j) == byte_at(vs[j], i),
    ensures
        xor_all(vs, n).len() == n,
        xor_all(vs, n)[i] == xor_sum(f, vs.len()),
    decreases vs.len(),
{
    lemma_xor_all_len(vs, n);
    if vs.len() > 0 {
        let init = vs.drop_last();
        lemma_xor_all_at(init, n, i, f);
        lemma_xor_all_len(init, n);
        assert(f(vs.len() - 1) == byte_at(vs.last(), i));
        lemma_xor_byte_laws(xor_all(init, n)[i], 0u8, 0u8);
    }
}

/// Over a symmetric table with a zero diagonal, every entry off the diagonal
/// is met twice, so the XOR of the whole square is zero.
pub proof fn lemma_symmetric_square_cancels(m: spec_fn(int, int) -> u8, k: nat)
    requires
        forall|a: int, b: int| 0 <= a < k && 0 <= b < k ==> #[trigger] m(a, b) == m(b, a),
        forall|a: int| 0 <= a < k ==> #[trigger] m(a, a) == 0u8,
    ensures
        xor_square(m, k, k) == 0u8,
    decreases k,
{
    if k > 0 {
        let j = (k - 1) as nat;
        lemma_symmetric_square_cancels(m, j);
        let narrow = |a: int| xor_sum(|b: int| m(a, b), j);
        let wide = |a: int| xor_sum(|b: int| m(a, b), k);
        let column = |a: int| m(a, j as int);
        let row = |b: int| m(j as int, b);
        // Each row of width k is the row of width j with the last column added.
        assert forall|a: int| 0 <= a < j implies #[trigger] wide(a) == narrow(a) ^ column(a) by {
            assert(xor_sum(|b: int| m(a, b), k) == xor_sum(|b: int| m(a, b), j) ^ m(a, j as int));
        }
        lemma_xor_sum_splits(narrow, column, wide, j);
        // The last column above the diagonal is the last row before it.
        lemma_xor_sum_agrees(column, row, j);
        let s = xor_sum(narrow, j);
        let c = xor_sum(row, j);
        assert(xor_sum(wide, k) == xor_sum(wide, j) ^ wide(j as int));
        assert(wide(j as int) == c ^ m(j as int, j as int));
        assert(s == 0u8);
        assert((0u8 ^ c) ^ (c ^ 0u8) == 0u8) by (bit_vector);
    }
}

/// Leaving out slot `a` of `k` peers: where `h` is `g` at each peer's slot
/// and zero for peer `a` itself, the XOR of `h` over all `k` peers is the
/// XOR of `g` over the `k - 1` slots.
pub proof fn lemma_xor_sum_skips(g: spec_fn(int) -> u8, h: spec_fn(int) -> u8, a: int, k: nat)
    requires
        0 <= a < k,
        forall|b: int|
            0 <= b < k ==> #[trigger] h(b) == if b == a {
                0u8
            } else if b < a {
                g(b)
            } else {
                g(b - 1)
            },
    ensures
        xor_sum(h, k) == xor_sum(g, (k - 1) as nat),
    decreases k,
{
    if k == a + 1 {
        lemma_xor_sum_agrees(h, g, a as nat);
        lemma_xor_byte_laws(xor_sum(h, a as nat), 0u8, 0u8);
        assert(xor_sum(h, k) == xor_sum(h, a as nat) ^ h(a));
    } else {
        lemma_xor_sum_skips(g, h, a, (k - 1) as nat);
        assert(xor_sum(h, k) == xor_sum(h, (k - 1) as nat) ^ h(k - 1));
        assert(xor_sum(g, (k - 1) as nat) == xor_sum(g, (k - 2) as nat) ^ g(k - 2));
    }
}

/// The XOR of sequences does not depend on their order: two lists that
/// hold the same sequences, each as often as the other, have the same XOR.
pub proof fn lemma_xor_all_ignores_order(vs: Seq<Seq<u8>>, ws: Seq<Seq<u8>>, n: nat)
    requires
        vs.to_multiset() == ws.to_multiset(),
    ensures
        xor_all(vs, n) == xor_all(ws, n),
{
    let f = |acc: Seq<u8>, v: Seq<u8>| xor_bytes(acc, v);
    assert forall|x: Seq<u8>, y: Seq<u8>, v: Seq<u8>| #[trigger] f(f(v, x), y) == f(f(v, y), x) by {
        assert forall|i: int| 0 <= i < v.len() implies xor_bytes(xor_bytes(v, x), y)[i]
            == xor_bytes(xor_bytes(v, y), x)[i] by {
            let a = v[i];
            let b = byte_at(x, i);
            let c = byte_at(y, i);
            assert((a ^ b) ^ c == (a ^ c) ^ b) by (bit_vector);
            lemma_xor_byte_laws(a, 0u8, 0u8);
            lemma_xor_byte_laws(a ^ b, 0u8, 0u8);
            lemma_xor_byte_laws(a ^ c, 0u8, 0u8);
        }
        assert(xor_bytes(xor_bytes(v, x), y) =~= xor_bytes(xor_bytes(v, y), x));
    }
    assert(commutative_foldl(f));
    lemma_fold_left_permutation(vs, ws, f, zero_bytes(n));
    lemma_xor_all_is_fold(vs, n);
    lemma_xor_all_is_fold(ws, n);
}

/// The XOR of `vs` is the left fold of `xor_bytes` over `vs` from zero.
proof fn lemma_xor_all_is_fold(vs: Seq<Seq<u8>>, n: nat)
    ensures
        xor_all(vs, n) == vs.fold_left(
            zero_bytes(n),
            |acc: Seq<u8>, v: Seq<u8>| xor_bytes(acc, v),
        ),
    decreases vs.len(),
{
    if vs.len() > 0 {
        lemma_xor_all_is_fold(vs.drop_last(), n);
    }
}

/// The XOR of sequences that are all zero is zero.
pub proof fn lemma_xor_all_of_zeros(vs: Seq<Seq<u8>>, n: nat)
    requires
        forall|j: int| 0 <= j < vs.len() ==> #[trigger] vs[j] == zero_bytes(n),
    ensures
        xor_all(vs, n) == zero_bytes(n),
    decreases vs.len(),
{
    if vs.len() > 0 {
        lemma_xor_all_of_zeros(vs.drop_last(), n);
        lemma_xor_bytes_cancels(zero_bytes(n));
    }
}

} // verus!
