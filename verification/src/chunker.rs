//! Cutting a sequence into consecutive runs of a fixed length.

use vstd::prelude::*;
use vstd::arithmetic::div_mod::lemma_fundamental_div_mod;
use vstd::arithmetic::div_mod::lemma_fundamental_div_mod_converse;

verus! {

/// How many chunks of at most `k` items hold `n` items: `n / k`, rounded up.
pub open spec fn chunk_count(n: nat, k: nat) -> nat
    recommends
        k > 0,
{
    ((n + k - 1) / (k as int)) as nat
}

/// Where chunk `i` ends among `n` items: `k` items after its start, or at
/// the end of the items if fewer are left.
pub open spec fn chunk_end(i: int, n: nat, k: nat) -> int {
    if (i + 1) * k <= n {
        (i + 1) * k
    } else {
        n as int
    }
}

/// `s` cut into consecutive chunks of `k` items, the last one holding what
/// is left over.
pub open spec fn chunked<T>(s: Seq<T>, k: nat) -> Seq<Seq<T>>
    recommends
        k > 0,
{
    Seq::new(chunk_count(s.len(), k), |i: int| s.subrange(i * k, chunk_end(i, s.len(), k)))
}

/// The rows of a vector of vectors.
pub open spec fn rows<T>(v: &Vec<Vec<T>>) -> Seq<Seq<T>> {
    Seq::new(v@.len(), |i: int| v@[i]@)
}

/// `c` chunks are needed exactly when `c` of them have room for the items
/// and one fewer have not.
pub proof fn lemma_chunk_count_is(n: nat, k: nat, c: nat)
    requires
        k > 0,
        n <= c * k,
        c == 0 || (c - 1) * k < n,
    ensures
        chunk_count(n, k) == c,
{
    if c == 0 {
        assert(n == 0) by (nonlinear_arith)
            requires
                n <= c * k,
                c == 0,
        ;
        lemma_fundamental_div_mod_converse(k - 1, k as int, 0, k - 1);
    } else {
        let r = n + k - 1 - c * k;
        assert((c - 1) * k == c * k - k) by (nonlinear_arith);
        lemma_fundamental_div_mod_converse(n + k - 1, k as int, c as int, r);
    }
}

/// No chunk is needed for no items, and at least one for any.
pub proof fn lemma_chunk_count_zero(n: nat, k: nat)
    requires
        k > 0,
    ensures
        chunk_count(n, k) == 0 <==> n == 0,
{
    if n == 0 {
        lemma_chunk_count_is(0, k, 0);
    } else {
        let m = n + k - 1;
        lemma_fundamental_div_mod(m, k as int);
        vstd::arithmetic::div_mod::lemma_mod_pos_bound(m, k as int);
        assert(m / (k as int) > 0) by (nonlinear_arith)
            requires
                m == k * (m / (k as int)) + m % (k as int),
                m % (k as int) < k,
                m >= k,
                k > 0,
        ;
    }
}

/// Every chunk starts inside the items and is not empty; every chunk but
/// the last is full.
pub proof fn lemma_chunk_bounds(n: nat, k: nat, i: int)
    requires
        k > 0,
        0 <= i < chunk_count(n, k),
    ensures
        0 <= i * k < n,
        i * k < chunk_end(i, n, k) <= n,
        chunk_end(i, n, k) - i * k <= k,
        i + 1 < chunk_count(n, k) ==> chunk_end(i, n, k) == i * k + k,
        i + 1 == chunk_count(n, k) ==> chunk_end(i, n, k) == n,
{
    let c = chunk_count(n, k) as int;
    let m = n + k - 1;
    lemma_fundamental_div_mod(m, k as int);
    let r = m % (k as int);
    assert(m == k * c + r);
    assert(0 <= r < k) by {
        vstd::arithmetic::div_mod::lemma_mod_pos_bound(m, k as int);
    }
    assert((c - 1) * k < n) by (nonlinear_arith)
        requires
            n + k - 1 == k * c + r,
            0 <= r,
    ;
    assert(n <= c * k) by (nonlinear_arith)
        requires
            n + k - 1 == k * c + r,
            r < k,
    ;
    assert(0 <= i * k) by (nonlinear_arith)
        requires
            0 <= i,
            k > 0,
    ;
    assert(i * k <= (c - 1) * k) by (nonlinear_arith)
        requires
            i <= c - 1,
            k > 0,
    ;
    assert((i + 1) * k == i * k + k) by (nonlinear_arith);
    if i + 1 < c {
        assert((i + 1) * k <= (c - 1) * k) by (nonlinear_arith)
            requires
                i + 1 <= c - 1,
                k > 0,
        ;
    } else {
        assert((i + 1) * k == c * k);
    }
}

/// No item lies in two chunks: an earlier chunk ends before a later one
/// starts.
pub proof fn lemma_chunks_disjoint(n: nat, k: nat, i: int, j: int)
    requires
        k > 0,
        0 <= i < j < chunk_count(n, k),
    ensures
        chunk_end(i, n, k) <= j * k,
{
    lemma_chunk_bounds(n, k, i);
    assert(i * k + k <= j * k) by (nonlinear_arith)
        requires
            i + 1 <= j,
            k > 0,
    ;
}

/// Cutting `n` items into chunks of `k` gives `n / k` chunks, rounded up;
/// each holds `k` items, except that the last holds between one and `k`.
pub proof fn lemma_chunked_shape<T>(s: Seq<T>, k: nat)
    requires
        k > 0,
    ensures
        chunked(s, k).len() == chunk_count(s.len(), k),
        forall|i: int|
            0 <= i < chunked(s, k).len() - 1 ==> (#[trigger] chunked(s, k)[i]).len() == k,
        chunked(s, k).len() > 0 ==> 1 <= chunked(s, k).last().len() <= k,
        chunked(s, k).len() > 0 ==> chunked(s, k).last().len() == s.len() - (chunked(s, k).len()
            - 1) * k,
        s.len() == 0 <==> chunked(s, k).len() == 0,
{
    let c = chunk_count(s.len(), k);
    assert(chunked(s, k).len() == c);
    lemma_chunk_count_zero(s.len(), k);
    assert forall|i: int| 0 <= i < c - 1 implies (#[trigger] chunked(s, k)[i]).len() == k by {
        lemma_chunk_bounds(s.len(), k, i);
    }
    if c > 0 {
        lemma_chunk_bounds(s.len(), k, c - 1);
    }
}

/// With chunks of one item, every item is a chunk of its own.
pub proof fn lemma_chunked_singles<T>(s: Seq<T>)
    ensures
        chunked(s, 1).len() == s.len(),
        forall|i: int| 0 <= i < s.len() ==> #[trigger] chunked(s, 1)[i] == seq![s[i]],
{
    lemma_chunk_count_is(s.len(), 1, s.len());
    assert forall|i: int| 0 <= i < s.len() implies #[trigger] chunked(s, 1)[i] == seq![s[i]] by {
        assert(s.subrange(i, i + 1) =~= seq![s[i]]);
    }
}

/// The first `j` chunks, laid end to end, are the items before the start of
/// chunk `j`.
proof fn lemma_chunked_prefix<T>(s: Seq<T>, k: nat, j: int)
    requires
        k > 0,
        0 <= j <= chunked(s, k).len(),
    ensures
        chunked(s, k).take(j).flatten() == s.subrange(
            0,
            if j == 0 {
                0
            } else {
                chunk_end(j - 1, s.len(), k)
            },
        ),
    decreases j,
{
    let all = chunked(s, k);
    if j == 0 {
        assert(all.take(0) =~= Seq::<Seq<T>>::empty());
        assert(s.subrange(0, 0) =~= Seq::<T>::empty());
    } else {
        lemma_chunked_prefix(s, k, j - 1);
        lemma_chunk_bounds(s.len(), k, j - 1);
        if j > 1 {
            lemma_chunk_bounds(s.len(), k, j - 2);
        }
        let start = (j - 1) * k;
        let end = chunk_end(j - 1, s.len(), k);
        assert(all.take(j) =~= all.take(j - 1).push(all[j - 1]));
        all.take(j - 1).lemma_flatten_push(all[j - 1]);
        assert(s.subrange(0, start) + s.subrange(start, end) =~= s.subrange(0, end));
    }
}

/// Chunking loses nothing and keeps the order: the chunks, laid end to end,
/// are the items.
pub proof fn lemma_chunked_flatten<T>(s: Seq<T>, k: nat)
    requires
        k > 0,
    ensures
        chunked(s, k).flatten() == s,
{
    let all = chunked(s, k);
    lemma_chunked_prefix(s, k, all.len() as int);
    lemma_chunked_shape(s, k);
    assert(all.take(all.len() as int) =~= all);
    if all.len() > 0 {
        lemma_chunk_bounds(s.len(), k, all.len() - 1);
    }
    assert(s.subrange(0, s.len() as int) =~= s);
}

/// Cuts `items` into consecutive chunks of `k`.
pub fn chunks_of<T: Copy>(items: &Vec<T>, k: usize) -> (chunks: Vec<Vec<T>>)
    requires
        k > 0,
    ensures
        rows(&chunks) == chunked(items@, k as nat),
{
    let n: usize = items.len();
    let mut chunks: Vec<Vec<T>> = Vec::new();
    let mut start: usize = 0;
    proof {
        lemma_chunk_count_zero(n as nat, k as nat);
        assert(0 * k == 0) by (nonlinear_arith);
    }
    while start < n
        invariant
            k > 0,
            n == items@.len(),
            start <= n,
            start == chunks@.len() * k || start == n,
            start == n ==> chunks@.len() == chunk_count(n as nat, k as nat),
            start < n ==> chunks@.len() < chunk_count(n as nat, k as nat),
            forall|c: int|
                0 <= c < chunks@.len() ==> (#[trigger] chunks@[c])@ == chunked(items@, k as nat)[c],
        decreases n - start,
    {
        let ghost index = chunks@.len() as int;
        let end: usize = if n - start >= k {
            start + k
        } else {
            n
        };
        proof {
            lemma_chunk_bounds(n as nat, k as nat, index);
            assert((index + 1) * k == index * k + k) by (nonlinear_arith);
            assert(end == chunk_end(index, n as nat, k as nat));
        }
        let mut chunk: Vec<T> = Vec::new();
        let mut i: usize = start;
        while i < end
            invariant
                start <= i <= end <= n,
                n == items@.len(),
                chunk@ == items@.subrange(start as int, i as int),
            decreases end - i,
        {
            chunk.push(items[i]);
            proof {
                assert(chunk@ =~= items@.subrange(start as int, i + 1));
            }
            i += 1;
        }
        chunks.push(chunk);
        proof {
            if end == n {
                if index + 1 < chunk_count(n as nat, k as nat) {
                    lemma_chunk_bounds(n as nat, k as nat, index + 1);
                }
            } else {
                if index + 1 >= chunk_count(n as nat, k as nat) {
                    assert(false);
                }
            }
        }
        start = end;
    }
    proof {
        assert(rows(&chunks) =~= chunked(items@, k as nat));
    }
    chunks
}

} // verus!
