//! Vector averaging: folding equal-dimension vectors into their
//! elementwise mean, whole-list or in fixed-size batches.
//!
//! Vector components are fixed-point values in `i64`; sums are taken
//! in `i128`, where they cannot overflow, and each mean component is
//! the component sum divided by the vector count, truncated toward
//! zero. When the count divides the sum exactly, the result is the
//! exact arithmetic mean.
use crate::errors::ServiceError;
use vstd::prelude::*;

verus! {

/// Truncating division of `x` by `d > 0`: the quotient rounded toward
/// zero, as machine division of signed integers computes it.
pub open spec fn div_trunc(x: int, d: int) -> int {
    if x == 0 {
        0
    } else if x > 0 {
        x / d
    } else {
        ((x * -1) / d) * -1
    }
}

/// The sum of component `k` over all vectors of `vs`.
pub open spec fn sum_at(vs: Seq<Seq<i64>>, k: int) -> int
    decreases vs.len(),
{
    if vs.len() == 0 {
        0
    } else {
        sum_at(vs.drop_last(), k) + vs.last()[k]
    }
}

/// A well-formed averaging input: at least one vector, all of equal
/// dimension.
pub open spec fn avg_ok(vs: Seq<Seq<i64>>) -> bool {
    vs.len() > 0 && forall|i: int| 0 <= i < vs.len() ==> (#[trigger] vs[i]).len() == vs[0].len()
}

/// The elementwise mean of a well-formed input, each component the
/// truncated quotient of the component sum by the vector count.
pub open spec fn spec_average(vs: Seq<Seq<i64>>) -> Seq<i64> {
    Seq::new(vs[0].len(), |k: int| div_trunc(sum_at(vs, k), vs.len() as int) as i64)
}

/// The truncated quotient of a sum of `n` components lies within the
/// component range.
proof fn lemma_div_trunc_in_range(x: int, n: int, lo: int, hi: int)
    requires
        n >= 1,
        lo <= 0 <= hi,
        n * lo <= x <= n * hi,
    ensures
        lo <= div_trunc(x, n) <= hi,
{
    if x == 0 {
    } else if x > 0 {
        vstd::arithmetic::div_mod::lemma_div_is_ordered(x, n * hi, n);
        assert(n * hi == hi * n) by (nonlinear_arith);
        vstd::arithmetic::div_mod::lemma_div_multiples_vanish(hi, n);
        vstd::arithmetic::div_mod::lemma_div_pos_is_pos(x, n);
    } else {
        let y = x * -1;
        assert(y <= n * (lo * -1)) by (nonlinear_arith)
            requires
                n * lo <= x,
                y == x * -1,
        ;
        vstd::arithmetic::div_mod::lemma_div_is_ordered(y, n * (lo * -1), n);
        assert(n * (lo * -1) == (lo * -1) * n) by (nonlinear_arith);
        vstd::arithmetic::div_mod::lemma_div_multiples_vanish(lo * -1, n);
        vstd::arithmetic::div_mod::lemma_div_pos_is_pos(y, n);
    }
}

/// The elementwise mean of a nonempty list of equal-dimension vectors,
/// summed in input order; the empty list and mismatched dimensions are
/// the consistency errors of averaging.
pub fn average_embeddings(embeddings: &Vec<Vec<i64>>) -> (r: Result<Vec<i64>, ServiceError>)
    ensures
        match r {
            Ok(a) => avg_ok(embeddings@.map_values(|v: Vec<i64>| v@)) && a@ == spec_average(
                embeddings@.map_values(|v: Vec<i64>| v@),
            ),
            Err(e) => !avg_ok(embeddings@.map_values(|v: Vec<i64>| v@)) && e == (
            if embeddings@.len() == 0 {
                ServiceError::EmbeddingAveragingError
            } else {
                ServiceError::VectorToArrayError
            }),
        },
{
    let ghost vs = embeddings@.map_values(|v: Vec<i64>| v@);
    if embeddings.len() == 0 {
        return Err(ServiceError::EmbeddingAveragingError);
    }
    let n = embeddings.len();
    let dim = embeddings[0].len();
    let mut i: usize = 1;
    while i < n
        invariant
            1 <= i <= n,
            n == embeddings@.len(),
            vs == embeddings@.map_values(|v: Vec<i64>| v@),
            dim == vs[0].len(),
            forall|j: int| 0 <= j < i ==> (#[trigger] vs[j]).len() == dim,
        decreases n - i,
    {
        proof {
            assert(vs[i as int] == embeddings@[i as int]@);
        }
        if embeddings[i].len() != dim {
            proof {
                assert(!avg_ok(vs));
            }
            return Err(ServiceError::VectorToArrayError);
        }
        i = i + 1;
    }
    let mut out: Vec<i64> = Vec::new();
    let mut k: usize = 0;
    while k < dim
        invariant
            k <= dim,
            n == embeddings@.len(),
            n >= 1,
            vs == embeddings@.map_values(|v: Vec<i64>| v@),
            avg_ok(vs),
            dim == vs[0].len(),
            out@.len() == k,
            forall|k2: int|
                0 <= k2 < k ==> out@[k2] == div_trunc(sum_at(vs, k2), vs.len() as int) as i64,
        decreases dim - k,
    {
        let mut sum: i128 = 0;
        let mut i: usize = 0;
        while i < n
            invariant
                i <= n,
                n == embeddings@.len(),
                vs == embeddings@.map_values(|v: Vec<i64>| v@),
                avg_ok(vs),
                0 <= k < dim,
                dim == vs[0].len(),
                sum == sum_at(vs.take(i as int), k as int),
                i * (i64::MIN as int) <= sum <= i * (i64::MAX as int),
            decreases n - i,
        {
            proof {
                assert(vs[i as int] == embeddings@[i as int]@);
                assert(vs[i as int].len() == dim);
            }
            let c = embeddings[i][k];
            proof {
                assert(vs.take(i + 1).drop_last() =~= vs.take(i as int));
                assert(vs.take(i + 1).last() == vs[i as int]);
                assert(i * (i64::MIN as int) + (i64::MIN as int) == (i + 1) * (i64::MIN as int))
                    by (nonlinear_arith);
                assert(i * (i64::MAX as int) + (i64::MAX as int) == (i + 1) * (i64::MAX as int))
                    by (nonlinear_arith);
                assert(i * (i64::MIN as int) >= n * (i64::MIN as int)) by (nonlinear_arith)
                    requires
                        0 <= i <= n,
                ;
                assert(i * (i64::MAX as int) <= n * (i64::MAX as int)) by (nonlinear_arith)
                    requires
                        0 <= i <= n,
                ;
                assert(n * (i64::MIN as int) >= i128::MIN) by (nonlinear_arith)
                    requires
                        n <= usize::MAX,
                ;
                assert(n * (i64::MAX as int) <= i128::MAX) by (nonlinear_arith)
                    requires
                        n <= usize::MAX,
                ;
            }
            sum = sum + c as i128;
            i = i + 1;
        }
        proof {
            assert(vs.take(vs.len() as int) =~= vs);
            assert(i * (i64::MIN as int) >= n * (i64::MIN as int)) by (nonlinear_arith)
                requires
                    0 <= i <= n,
            ;
            assert(i * (i64::MAX as int) <= n * (i64::MAX as int)) by (nonlinear_arith)
                requires
                    0 <= i <= n,
            ;
            lemma_div_trunc_in_range(sum as int, n as int, i64::MIN as int, i64::MAX as int);
            if sum < 0 {
                vstd::arithmetic::div_mod::lemma_div_nonincreasing(sum as int * -1, n as int);
                vstd::arithmetic::div_mod::lemma_div_pos_is_pos(sum as int * -1, n as int);
            }
        }
        let q = sum.checked_div(n as i128).unwrap();
        out.push(q as i64);
        k = k + 1;
    }
    proof {
        assert(out@ =~= spec_average(vs));
    }
    Ok(out)
}

/// Batch `j` of `vs` for batch size `size`: the vectors at positions
/// `j*size` up to `min(len, (j+1)*size)`.
pub open spec fn batch_of(vs: Seq<Seq<i64>>, size: int, j: int) -> Seq<Seq<i64>> {
    vs.subrange(
        j * size,
        if vs.len() < (j + 1) * size {
            vs.len() as int
        } else {
            (j + 1) * size
        },
    )
}

/// Bounds tying `⌈n/size⌉` batches to `n` elements.
proof fn lemma_ceil_div_cover(n: int, size: int)
    requires
        n >= 0,
        size >= 1,
    ensures
        crate::spec_ceil_div(n, size) >= 0,
        n <= crate::spec_ceil_div(n, size) * size,
        n >= 1 ==> (crate::spec_ceil_div(n, size) - 1) * size < n,
        n >= 1 ==> crate::spec_ceil_div(n, size) >= 1,
        n == 0 ==> crate::spec_ceil_div(n, size) == 0,
{
    if n == 0 {
        vstd::arithmetic::div_mod::lemma_basic_div(size - 1, size);
    }
    let c = crate::spec_ceil_div(n, size);
    vstd::arithmetic::div_mod::lemma_fundamental_div_mod(n + size - 1, size);
    vstd::arithmetic::div_mod::lemma_mod_bound(n + size - 1, size);
    vstd::arithmetic::div_mod::lemma_div_pos_is_pos(n + size - 1, size);
    let r = (n + size - 1) % size;
    assert(n <= c * size) by (nonlinear_arith)
        requires
            n + size - 1 == size * c + r,
            r < size,
    ;
    assert(n >= 1 ==> (c - 1) * size < n) by (nonlinear_arith)
        requires
            n + size - 1 == size * c + r,
            r >= 0,
            size >= 1,
    ;
    assert(n >= 1 ==> c >= 1) by (nonlinear_arith)
        requires
            n <= c * size,
            size >= 1,
    ;
}

/// The first `j` outputs each average their batch.
pub open spec fn prefix_averaged(vs: Seq<Seq<i64>>, size: int, out: Seq<Vec<i64>>, j: int) -> bool {
    forall|jj: int|
        #![trigger out[jj]]
        #![trigger batch_of(vs, size, jj)]
        0 <= jj < j ==> avg_ok(batch_of(vs, size, jj)) && (out[jj])@ == spec_average(
            batch_of(vs, size, jj),
        )
}

/// Extending an averaged prefix by the average of the next batch.
proof fn lemma_prefix_averaged_push(vs: Seq<Seq<i64>>, size: int, out: Seq<Vec<i64>>, j: int, v: Vec<i64>)
    requires
        prefix_averaged(vs, size, out, j),
        out.len() == j,
        j >= 0,
        avg_ok(batch_of(vs, size, j)),
        v@ == spec_average(batch_of(vs, size, j)),
    ensures
        prefix_averaged(vs, size, out.push(v), j + 1),
{
    let out2 = out.push(v);
    assert forall|jj: int|
        0 <= jj < j + 1 implies avg_ok(batch_of(vs, size, jj)) && (#[trigger] out2[jj])@
            == spec_average(batch_of(vs, size, jj)) by {
        if jj == j {
            assert(out2[jj] == v);
        } else {
            assert(out2[jj] == out[jj]);
            assert((out[jj])@ == spec_average(batch_of(vs, size, jj)));
            assert(avg_ok(batch_of(vs, size, jj)));
        }
    }
}

/// Partitions the vectors into consecutive batches of `group_size`
/// (the final batch may be shorter) and averages each batch
/// independently: `⌈n/size⌉` outputs, the `j`-th the average of
/// `vs[j*size .. min(n, (j+1)*size)]`.
#[verifier::rlimit(60)]
pub fn group_average_embeddings(embeddings: &Vec<Vec<i64>>, group_size: i32) -> (r: Result<
    Vec<Vec<i64>>,
    ServiceError,
>)
    requires
        group_size >= 1,
    ensures
        match r {
            Ok(gs) => {
                let vs = embeddings@.map_values(|v: Vec<i64>| v@);
                &&& gs@.len() == crate::spec_ceil_div(vs.len() as int, group_size as int)
                &&& prefix_averaged(vs, group_size as int, gs@, gs@.len() as int)
            },
            Err(e) => {
                let vs = embeddings@.map_values(|v: Vec<i64>| v@);
                &&& e == ServiceError::VectorToArrayError
                &&& exists|j: int|
                    0 <= j < crate::spec_ceil_div(vs.len() as int, group_size as int)
                        && !avg_ok(#[trigger] batch_of(vs, group_size as int, j))
            },
        },
{
    let ghost vs = embeddings@.map_values(|v: Vec<i64>| v@);
    let n = embeddings.len();
    let size = group_size as usize;
    let batches = crate::ceil_div(n, size);
    proof {
        lemma_ceil_div_cover(n as int, size as int);
    }
    let mut out: Vec<Vec<i64>> = Vec::new();
    let mut j: usize = 0;
    while j < batches
        invariant
            j <= batches,
            size >= 1,
            group_size >= 1,
            size == group_size as usize,
            size as int == group_size as int,
            n == embeddings@.len(),
            vs == embeddings@.map_values(|v: Vec<i64>| v@),
            batches == crate::spec_ceil_div(n as int, group_size as int),
            n <= batches * size,
            j >= 1 ==> (j - 1) * size < n,
            batches >= 1 ==> (batches - 1) * size < n,
            out@.len() == j,
            prefix_averaged(vs, group_size as int, out@, j as int),
        decreases batches - j,
    {
        proof {
            assert(j * size <= (batches - 1) * size) by (nonlinear_arith)
                requires
                    j <= batches - 1,
                    size >= 1,
            ;
            assert(j * size + size == (j + 1) * size) by (nonlinear_arith);
        }
        let start = j * size;
        let end = if n - start < size {
            n
        } else {
            start + size
        };
        let mut batch: Vec<Vec<i64>> = Vec::new();
        let mut i: usize = start;
        while i < end
            invariant
                start <= i <= end <= n,
                n == embeddings@.len(),
                vs == embeddings@.map_values(|v: Vec<i64>| v@),
                batch@.map_values(|v: Vec<i64>| v@) =~= vs.subrange(start as int, i as int),
            decreases end - i,
        {
            let mut row: Vec<i64> = Vec::new();
            let mut c: usize = 0;
            while c < embeddings[i].len()
                invariant
                    0 <= i < n,
                    n == embeddings@.len(),
                    c <= embeddings@[i as int]@.len(),
                    row@ == embeddings@[i as int]@.take(c as int),
                decreases embeddings@[i as int]@.len() - c,
            {
                row.push(embeddings[i][c]);
                proof {
                    assert(embeddings@[i as int]@.take(c + 1) =~= embeddings@[i as int]@.take(
                        c as int,
                    ).push(embeddings@[i as int]@[c as int]));
                }
                c = c + 1;
            }
            proof {
                assert(row@ =~= embeddings@[i as int]@);
                assert(vs[i as int] == embeddings@[i as int]@);
            }
            let ghost old_map = batch@.map_values(|v: Vec<i64>| v@);
            batch.push(row);
            proof {
                assert(batch@.map_values(|v: Vec<i64>| v@) =~= old_map.push(row@));
                assert(vs.subrange(start as int, i + 1) =~= vs.subrange(start as int, i as int)
                    .push(vs[i as int]));
            }
            i = i + 1;
        }
        proof {
            let gsz = group_size as int;
            assert(size as int == gsz);
            assert(j * size + size == (j + 1) * size) by (nonlinear_arith);
            assert(start as int == j as int * gsz);
            assert(start as int + gsz == (j + 1) * gsz);
            assert(i == end);
            assert(end as int == if vs.len() < (j + 1) * gsz {
                vs.len() as int
            } else {
                (j + 1) * gsz
            });
            assert(batch@.map_values(|v: Vec<i64>| v@) =~= batch_of(vs, gsz, j as int));
            assert(batch_of(vs, gsz, j as int) == batch_of(vs, group_size as int, j as int));
        }
        let avg = match average_embeddings(&batch) {
            Ok(a) => a,
            Err(_) => {
                proof {
                    assert(!avg_ok(batch_of(vs, group_size as int, j as int)));
                }
                return Err(ServiceError::VectorToArrayError);
            },
        };
        proof {
            assert(avg_ok(batch_of(vs, group_size as int, j as int)));
            assert(avg@ == spec_average(batch_of(vs, group_size as int, j as int)));
        }
        let ghost old_out = out@;
        out.push(avg);
        proof {
            lemma_prefix_averaged_push(vs, group_size as int, old_out, j as int, avg);
            assert(out@ == old_out.push(avg));
        }
        j = j + 1;
    }
    Ok(out)
}

/// The component sum of `n` vectors of `i64` components lies within
/// `n` times the `i64` range.
proof fn lemma_sum_at_bounds(vs: Seq<Seq<i64>>, k: int)
    ensures
        vs.len() * (i64::MIN as int) <= sum_at(vs, k) <= vs.len() * (i64::MAX as int),
    decreases vs.len(),
{
    if vs.len() == 0 {
    } else {
        lemma_sum_at_bounds(vs.drop_last(), k);
        let l = vs.len() as int;
        let s = sum_at(vs.drop_last(), k);
        let c = vs.last()[k] as int;
        assert(l * (i64::MIN as int) <= s + c <= l * (i64::MAX as int)) by (nonlinear_arith)
            requires
                (l - 1) * (i64::MIN as int) <= s <= (l - 1) * (i64::MAX as int),
                i64::MIN as int <= c <= i64::MAX as int,
                l >= 1,
        ;
    }
}

/// The average of a single vector is that vector.
pub proof fn lemma_average_singleton(v: Seq<i64>)
    ensures
        avg_ok(seq![v]),
        spec_average(seq![v]) == v,
{
    let vs = seq![v];
    assert forall|k: int| 0 <= k < v.len() implies spec_average(vs)[k] == v[k] by {
        assert(vs.drop_last() =~= Seq::<Seq<i64>>::empty());
        assert(sum_at(vs.drop_last(), k) == 0);
        assert(vs.last() == v);
        assert(sum_at(vs, k) == v[k]);
        vstd::arithmetic::div_mod::lemma_div_basics(v[k] as int);
        vstd::arithmetic::div_mod::lemma_div_basics(v[k] as int * -1);
        assert(div_trunc(v[k] as int, 1) == v[k] as int);
    }
    assert(spec_average(vs) =~= v);
}

/// When the vector count divides each component sum exactly, the
/// average is the exact arithmetic mean: `n` times component `k` of
/// the average equals the sum of the inputs' components `k`.
pub proof fn lemma_average_exact_mean(vs: Seq<Seq<i64>>, k: int)
    requires
        avg_ok(vs),
        0 <= k < vs[0].len(),
        sum_at(vs, k) % (vs.len() as int) == 0,
    ensures
        spec_average(vs)[k] * vs.len() == sum_at(vs, k),
{
    let n = vs.len() as int;
    let x = sum_at(vs, k);
    lemma_sum_at_bounds(vs, k);
    lemma_div_trunc_in_range(x, n, i64::MIN as int, i64::MAX as int);
    vstd::arithmetic::div_mod::lemma_fundamental_div_mod(x, n);
    if x == 0 {
    } else if x > 0 {
        assert(div_trunc(x, n) * n == x) by (nonlinear_arith)
            requires
                x == n * (x / n) + x % n,
                x % n == 0,
                div_trunc(x, n) == x / n,
        ;
    } else {
        let y = x * -1;
        let q = x / n;
        assert(x == n * q);
        assert(y == n * (q * -1)) by (nonlinear_arith)
            requires
                x == n * q,
                y == x * -1,
        ;
        vstd::arithmetic::div_mod::lemma_div_multiples_vanish(q * -1, n);
        assert(y / n == q * -1);
        assert(div_trunc(x, n) == q);
        assert(q * n == x) by (nonlinear_arith)
            requires
                x == n * q,
        ;
    }
}

} // verus!
