//! Batch tokenizing: how a list of formulas is cut into contiguous chunks,
//! one per worker, how a chunk is scanned, and how the chunks' results are
//! put back together in order. Running the workers is left to the caller.
use vstd::prelude::*;
use crate::grammar::scan;
use crate::number::NumberPattern;
use crate::scanner::tokenize_with;
use crate::token::{views, Token};

verus! {

/// The usual number of workers.
pub const DEFAULT_WORKERS: usize = 10;

/// How many chunks `n` formulas are cut into for `w` workers: one per
/// worker, but never an empty one.
pub open spec fn chunk_count(n: nat, w: nat) -> nat {
    if n == 0 {
        0
    } else if n < w {
        n
    } else {
        w
    }
}

/// The size of every chunk but the last, which takes the remainder too.
pub open spec fn chunk_size(n: nat, w: nat) -> nat {
    if n < w {
        1
    } else {
        n / w
    }
}

/// The range of formulas, start included and end excluded, of chunk `k`.
pub open spec fn chunk_bounds(n: nat, w: nat, k: int) -> (int, int) {
    (
        k * chunk_size(n, w),
        if k == chunk_count(n, w) - 1 {
            n as int
        } else {
            (k + 1) * chunk_size(n, w)
        },
    )
}

proof fn lemma_chunk_start_le(n: nat, w: nat, k: int)
    requires
        w > 0,
        0 <= k < chunk_count(n, w),
    ensures
        k * chunk_size(n, w) + chunk_size(n, w) <= n,
        chunk_size(n, w) > 0,
{
    if n >= w {
        let s = n / w;
        assert(w * s <= n) by (nonlinear_arith)
            requires
                s == n / w,
                w > 0,
        ;
        assert(k * s + s <= w * s) by (nonlinear_arith)
            requires
                k < w,
                s >= 0,
        ;
        assert(s > 0) by (nonlinear_arith)
            requires
                s == n / w,
                n >= w,
                w > 0,
        ;
    }
}

/// The chunks cover the formulas in order without gap or overlap, none of
/// them empty, and there are at most `w` of them.
pub proof fn lemma_chunks_partition(n: nat, w: nat)
    requires
        w > 0,
    ensures
        chunk_count(n, w) <= w,
        n > 0 ==> chunk_bounds(n, w, 0).0 == 0,
        n > 0 ==> chunk_bounds(n, w, chunk_count(n, w) - 1).1 == n,
        forall|k: int|
            0 <= k < chunk_count(n, w) - 1 ==> #[trigger] chunk_bounds(n, w, k).1 == chunk_bounds(
                n,
                w,
                k + 1,
            ).0,
        forall|k: int|
            0 <= k < chunk_count(n, w) ==> 0 <= #[trigger] chunk_bounds(n, w, k).0 < chunk_bounds(
                n,
                w,
                k,
            ).1 <= n,
{
    assert forall|k: int| 0 <= k < chunk_count(n, w) implies 0 <= #[trigger] chunk_bounds(
        n,
        w,
        k,
    ).0 < chunk_bounds(n, w, k).1 <= n by {
        lemma_chunk_start_le(n, w, k);
        let s = chunk_size(n, w);
        assert(k * s >= 0) by (nonlinear_arith)
            requires
                k >= 0,
                s >= 0,
        ;
        assert((k + 1) * s == k * s + s) by (nonlinear_arith);
    }
}

/// The ranges of formulas that `workers` workers take from `n` formulas.
pub fn chunk_ranges(n: usize, workers: usize) -> (r: Vec<(usize, usize)>)
    requires
        workers > 0,
    ensures
        r@.len() == chunk_count(n as nat, workers as nat),
        forall|k: int|
            0 <= k < r@.len() ==> r@[k].0 as int == chunk_bounds(n as nat, workers as nat, k).0
                && r@[k].1 as int == chunk_bounds(n as nat, workers as nat, k).1,
{
    let size: usize = if n < workers {
        1
    } else {
        n / workers
    };
    let count: usize = if n == 0 {
        0
    } else if n < workers {
        n
    } else {
        workers
    };
    let mut r: Vec<(usize, usize)> = Vec::new();
    let mut k: usize = 0;
    while k < count
        invariant
            workers > 0,
            size == chunk_size(n as nat, workers as nat),
            count == chunk_count(n as nat, workers as nat),
            k <= count,
            r@.len() == k,
            forall|j: int|
                0 <= j < k ==> r@[j].0 as int == chunk_bounds(n as nat, workers as nat, j).0
                    && r@[j].1 as int == chunk_bounds(n as nat, workers as nat, j).1,
        decreases count - k,
    {
        proof {
            lemma_chunk_start_le(n as nat, workers as nat, k as int);
            assert((k + 1) * size == k * size + size) by (nonlinear_arith);
            assert(k * size >= 0) by (nonlinear_arith)
                requires
                    k >= 0,
                    size >= 0,
            ;
        }
        let start = k * size;
        let end = if k == count - 1 {
            n
        } else {
            start + size
        };
        r.push((start, end));
        k = k + 1;
    }
    r
}

/// Scans the formulas from `start` up to `end`, each on its own, in order.
pub fn tokenize_range(pattern: &NumberPattern, formulas: &Vec<String>, start: usize, end: usize) -> (r: Vec<Vec<Token>>)
    requires
        start <= end <= formulas@.len(),
    ensures
        r@.len() == end - start,
        forall|i: int| 0 <= i < r@.len() ==> views(#[trigger] r@[i]@) == scan(formulas@[start + i]@),
{
    let mut r: Vec<Vec<Token>> = Vec::new();
    let mut i: usize = start;
    while i < end
        invariant
            start <= i <= end <= formulas@.len(),
            r@.len() == i - start,
            forall|j: int| 0 <= j < r@.len() ==> views(#[trigger] r@[j]@) == scan(formulas@[start + j]@),
        decreases end - i,
    {
        let tokens = tokenize_with(pattern, formulas[i].as_str());
        r.push(tokens);
        i = i + 1;
    }
    r
}

/// The lists of `parts`, one after another.
pub open spec fn flat(parts: Seq<Vec<Vec<Token>>>) -> Seq<Vec<Token>>
    decreases parts.len(),
{
    if parts.len() == 0 {
        Seq::empty()
    } else {
        flat(parts.drop_last()) + parts.last()@
    }
}

/// Puts the chunks' results back together, in chunk order.
pub fn join_chunks(parts: Vec<Vec<Vec<Token>>>) -> (r: Vec<Vec<Token>>)
    ensures
        r@ == flat(parts@),
{
    let ghost whole = parts@;
    let mut parts = parts;
    let mut out: Vec<Vec<Token>> = Vec::new();
    while parts.len() > 0
        invariant
            flat(whole) == flat(parts@) + out@,
        decreases parts@.len(),
    {
        let ghost before = parts@;
        let mut chunk = parts.pop().unwrap();
        assert(before.drop_last() == parts@);
        assert(flat(before) == flat(parts@) + chunk@);
        chunk.append(&mut out);
        out = chunk;
        assert(flat(whole) =~= flat(parts@) + out@);
    }
    assert(flat(whole) =~= out@);
    out
}

/// The hypotheses of `lemma_order_preserved`: `parts` holds, chunk by chunk,
/// the scans of the formulas in the ranges of `chunk_ranges`.
pub open spec fn chunks_scanned(formulas: Seq<String>, workers: nat, parts: Seq<Vec<Vec<Token>>>) -> bool {
    &&& workers > 0
    &&& parts.len() == chunk_count(formulas.len(), workers)
    &&& forall|k: int|
        0 <= k < parts.len() ==> (#[trigger] parts[k])@.len() == chunk_bounds(
            formulas.len(),
            workers,
            k,
        ).1 - chunk_bounds(formulas.len(), workers, k).0
    &&& forall|k: int, i: int|
        0 <= k < parts.len() && 0 <= i < parts[k]@.len() ==> views(#[trigger] parts[k]@[i]@)
            == scan(formulas[chunk_bounds(formulas.len(), workers, k).0 + i]@)
}

#[verifier::rlimit(40)]
proof fn lemma_order_prefix(formulas: Seq<String>, workers: nat, parts: Seq<Vec<Vec<Token>>>, j: int)
    requires
        chunks_scanned(formulas, workers, parts),
        0 <= j <= parts.len(),
    ensures
        flat(parts.take(j)).len() == if j == 0 { 0 } else { chunk_bounds(formulas.len(), workers, j - 1).1 },
        forall|i: int| 0 <= i < flat(parts.take(j)).len() ==> views(#[trigger] flat(parts.take(j))[i]@)
            == scan(formulas[i]@),
    decreases j,
{
    let n = formulas.len();
    if j > 0 {
        let p = j - 1;
        lemma_order_prefix(formulas, workers, parts, p);
        let e = flat(parts.take(p)).len() as int;
        assert(0 * chunk_size(n, workers) == 0);
        assert(e == chunk_bounds(n, workers, p).0);
        let len_p = parts[p]@.len();
        assert(len_p == chunk_bounds(n, workers, p).1 - chunk_bounds(n, workers, p).0);
        assert(parts.take(j).drop_last() =~= parts.take(p));
        let next = flat(parts.take(j));
        assert(next == flat(parts.take(p)) + parts[p]@);
        assert forall|i: int| 0 <= i < next.len() implies views(#[trigger] next[i]@) == scan(formulas[i]@) by {
            if i >= e {
                assert(next[i] == parts[p]@[i - e]);
                assert(views(parts[p]@[i - e]@) == scan(formulas[chunk_bounds(n, workers, p).0 + (i - e)]@));
            } else {
                assert(next[i] == flat(parts.take(p))[i]);
            }
        }
    } else {
        assert(parts.take(0) =~= Seq::<Vec<Vec<Token>>>::empty());
    }
}

/// Scanning chunk by chunk over the ranges of `chunk_ranges` and joining the
/// results gives, at each index, the tokens of the formula at that index.
pub proof fn lemma_order_preserved(formulas: Seq<String>, workers: nat, parts: Seq<Vec<Vec<Token>>>)
    requires
        chunks_scanned(formulas, workers, parts),
    ensures
        flat(parts).len() == formulas.len(),
        forall|i: int| 0 <= i < formulas.len() ==> views(#[trigger] flat(parts)[i]@) == scan(formulas[i]@),
{
    let n = formulas.len();
    lemma_chunks_partition(n, workers);
    lemma_order_prefix(formulas, workers, parts, parts.len() as int);
    assert(parts.take(parts.len() as int) =~= parts);
    if n == 0 {
        assert(flat(parts).len() == 0);
    }
}

} // verus!
