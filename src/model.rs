use vstd::prelude::*;

use crate::network::Number;

verus! {

/// `tanh` of each entry, then the bias unit.
pub open spec fn encode_spec<N: Number>(v: Seq<N>) -> Seq<N> {
    Seq::new(v.len(), |i: int| v[i].spec_tanh()).push(N::spec_one())
}

/// The dot product of the first `n` entries of `a` and `b`, summed in order.
pub open spec fn dot_spec<N: Number>(a: Seq<N>, b: Seq<N>, n: nat) -> N
    decreases n,
{
    if n == 0 {
        N::spec_zero()
    } else {
        dot_spec(a, b, (n - 1) as nat).spec_add(a[n - 1].spec_mul(b[n - 1]))
    }
}

/// `tanh(m · v)`.
pub open spec fn activate_spec<N: Number>(m: Seq<Seq<N>>, v: Seq<N>) -> Seq<N> {
    Seq::new(m.len(), |i: int| dot_spec(m[i], v, v.len()).spec_tanh())
}

/// The activations after the first `k` matrices of `ms`, the encoded input
/// first.
pub open spec fn trace_spec<N: Number>(ms: Seq<Seq<Seq<N>>>, input: Seq<N>, k: nat) -> Seq<Seq<N>>
    decreases k,
{
    if k == 0 {
        seq![encode_spec(input)]
    } else {
        let t = trace_spec(ms, input, (k - 1) as nat);
        t.push(activate_spec(ms[k - 1], t.last()))
    }
}

/// The full activation trace of a forward pass.
pub open spec fn forward_spec<N: Number>(ms: Seq<Seq<Seq<N>>>, input: Seq<N>) -> Seq<Seq<N>> {
    trace_spec(ms, input, ms.len())
}

/// An activation without its bias unit, through `atanh`.
pub open spec fn decode_spec<N: Number>(a: Seq<N>) -> Seq<N> {
    Seq::new((a.len() - 1) as nat, |i: int| a[i].spec_atanh())
}

/// What the network outputs for `input`.
pub open spec fn run_spec<N: Number>(ms: Seq<Seq<Seq<N>>>, input: Seq<N>) -> Seq<N> {
    decode_spec(forward_spec(ms, input).last())
}

/// `a - b`, entry by entry.
pub open spec fn diff_spec<N: Number>(a: Seq<N>, b: Seq<N>) -> Seq<N> {
    Seq::new(a.len(), |i: int| a[i].spec_sub(b[i]))
}

/// `(1 - a²) * x`, entry by entry.
pub open spec fn signal_spec<N: Number>(a: Seq<N>, x: Seq<N>) -> Seq<N> {
    Seq::new(a.len(), |i: int| N::spec_one().spec_sub(a[i].spec_mul(a[i])).spec_mul(x[i]))
}

/// Entry `j` of `mᵀ · e`, over the first `n` rows, summed in order.
pub open spec fn col_sum_spec<N: Number>(m: Seq<Seq<N>>, e: Seq<N>, j: int, n: nat) -> N
    decreases n,
{
    if n == 0 {
        N::spec_zero()
    } else {
        col_sum_spec(m, e, j, (n - 1) as nat).spec_add(m[n - 1][j].spec_mul(e[n - 1]))
    }
}

/// `mᵀ · e`, with `cols` entries.
pub open spec fn transpose_times_spec<N: Number>(m: Seq<Seq<N>>, e: Seq<N>, cols: nat) -> Seq<N> {
    Seq::new(cols, |j: int| col_sum_spec(m, e, j, m.len()))
}

/// The error signal at the output of matrix `i`, propagated back from the
/// last layer, where it compares the activation with the encoded target.
pub open spec fn error_spec<N: Number>(
    ms: Seq<Seq<Seq<N>>>,
    trace: Seq<Seq<N>>,
    encoded: Seq<N>,
    i: int,
) -> Seq<N>
    decreases ms.len() - i,
{
    if i >= ms.len() - 1 {
        signal_spec(trace[i + 1], diff_spec(trace[i + 1], encoded))
    } else {
        signal_spec(
            trace[i + 1],
            transpose_times_spec(
                ms[i + 1],
                error_spec(ms, trace, encoded, i + 1),
                trace[i + 1].len(),
            ),
        )
    }
}

/// `scale * e * prevᵀ` on every row but the last, which is zero.
pub open spec fn mask_spec<N: Number>(e: Seq<N>, prev: Seq<N>, scale: N) -> Seq<Seq<N>> {
    Seq::new(
        e.len(),
        |i: int|
            Seq::new(
                prev.len(),
                |j: int|
                    if i < e.len() - 1 {
                        scale.spec_mul(e[i]).spec_mul(prev[j])
                    } else {
                        N::spec_zero()
                    },
            ),
    )
}

/// The gradient masks of one example, last layer first.
pub open spec fn gradients_spec<N: Number>(
    ms: Seq<Seq<Seq<N>>>,
    rate: N,
    input: Seq<N>,
    target: Seq<N>,
) -> Seq<Seq<Seq<N>>> {
    let trace = forward_spec(ms, input);
    let encoded = encode_spec(target);
    Seq::new(
        ms.len(),
        |t: int|
            mask_spec(
                error_spec(ms, trace, encoded, ms.len() - 1 - t),
                trace[ms.len() - 1 - t],
                N::spec_zero().spec_sub(rate),
            ),
    )
}

/// `m + d` on every row but the last, which stays as in `m`.
pub open spec fn add_except_bias_spec<N: Number>(m: Seq<Seq<N>>, d: Seq<Seq<N>>) -> Seq<Seq<N>> {
    Seq::new(
        m.len(),
        |i: int|
            if i < m.len() - 1 {
                Seq::new(m[i].len(), |j: int| m[i][j].spec_add(d[i][j]))
            } else {
                m[i]
            },
    )
}

/// The matrices after one mask sequence, last layer first, is added in.
pub open spec fn apply_spec<N: Number>(ms: Seq<Seq<Seq<N>>>, masks: Seq<Seq<Seq<N>>>) -> Seq<
    Seq<Seq<N>>,
> {
    Seq::new(ms.len(), |k: int| add_except_bias_spec(ms[k], masks[ms.len() - 1 - k]))
}

/// The squared distance of the first `n` entries, summed in order.
pub open spec fn squared_spec<N: Number>(out: Seq<N>, target: Seq<N>, n: nat) -> N
    decreases n,
{
    if n == 0 {
        N::spec_zero()
    } else {
        let d = out[n - 1].spec_sub(target[n - 1]);
        squared_spec(out, target, (n - 1) as nat).spec_add(d.spec_mul(d))
    }
}

/// The squared error of one example.
pub open spec fn example_error_spec<N: Number>(
    ms: Seq<Seq<Seq<N>>>,
    input: Seq<N>,
    target: Seq<N>,
) -> N {
    let out = run_spec(ms, input);
    squared_spec(out, target, out.len())
}

/// The summed error of the first `n` examples, in order.
pub open spec fn total_error_spec<N: Number>(
    ms: Seq<Seq<Seq<N>>>,
    data: Seq<(Vec<N>, Vec<N>)>,
    n: nat,
) -> N
    decreases n,
{
    if n == 0 {
        N::spec_zero()
    } else {
        total_error_spec(ms, data, (n - 1) as nat).spec_add(
            example_error_spec(ms, data[n - 1].0@, data[n - 1].1@),
        )
    }
}

/// The mean squared error over a dataset.
pub open spec fn mean_error_spec<N: Number>(
    ms: Seq<Seq<Seq<N>>>,
    data: Seq<(Vec<N>, Vec<N>)>,
) -> N {
    total_error_spec(ms, data, data.len()).spec_div(N::spec_from_usize(data.len() as usize))
}

/// The matrices after the masks of the first `n` examples, all computed on
/// `frozen`, are added into `frozen` in order.
pub open spec fn accumulate_spec<N: Number>(
    frozen: Seq<Seq<Seq<N>>>,
    rate: N,
    data: Seq<(Vec<N>, Vec<N>)>,
    n: nat,
) -> Seq<Seq<Seq<N>>>
    decreases n,
{
    if n == 0 {
        frozen
    } else {
        apply_spec(
            accumulate_spec(frozen, rate, data, (n - 1) as nat),
            gradients_spec(frozen, rate, data[n - 1].0@, data[n - 1].1@),
        )
    }
}

/// The matrices after one training iteration over `data`.
pub open spec fn epoch_spec<N: Number>(
    ms: Seq<Seq<Seq<N>>>,
    rate: N,
    data: Seq<(Vec<N>, Vec<N>)>,
) -> Seq<Seq<Seq<N>>> {
    accumulate_spec(ms, rate, data, data.len())
}

/// The matrices after `j` training iterations over `data`.
pub open spec fn epochs_spec<N: Number>(
    ms: Seq<Seq<Seq<N>>>,
    rate: N,
    data: Seq<(Vec<N>, Vec<N>)>,
    j: nat,
) -> Seq<Seq<Seq<N>>>
    decreases j,
{
    if j == 0 {
        ms
    } else {
        epoch_spec(epochs_spec(ms, rate, data, (j - 1) as nat), rate, data)
    }
}

/// After `j` training iterations the mean error is at most `target`.
pub open spec fn reaches_target<N: Number>(
    ms: Seq<Seq<Seq<N>>>,
    rate: N,
    data: Seq<(Vec<N>, Vec<N>)>,
    target: N,
    j: nat,
) -> bool {
    mean_error_spec(epochs_spec(ms, rate, data, j), data).spec_le(target)
}

} // verus!
