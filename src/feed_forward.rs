use vstd::prelude::*;

use crate::model::{encode_spec, dot_spec, activate_spec, trace_spec, forward_spec, decode_spec, run_spec, diff_spec, signal_spec, col_sum_spec, transpose_times_spec, error_spec, mask_spec, gradients_spec, add_except_bias_spec, apply_spec, squared_spec, example_error_spec, total_error_spec, mean_error_spec, accumulate_spec, epoch_spec, epochs_spec, reaches_target};
use crate::network::{Network, NetworkError, Number, TrainOutcome};

verus! {

/// Default learning rate, as a fraction of one: one part in this many.
pub const LEARNING_RATE_DENOMINATOR: usize = 1000;

/// The matrix of a vector of rows, as a sequence of sequences.
pub open spec fn matrix_view<N>(m: Vec<Vec<N>>) -> Seq<Seq<N>> {
    m@.map_values(|r: Vec<N>| r@)
}

/// A sequence of matrices, as nested sequences.
pub open spec fn stack_view<N>(s: Vec<Vec<Vec<N>>>) -> Seq<Seq<Seq<N>>> {
    s@.map_values(|m: Vec<Vec<N>>| matrix_view(m))
}

/// Layer widths that describe a network: at least two layers, none empty.
pub open spec fn layers_valid(layers: Seq<usize>) -> bool {
    &&& layers.len() >= 2
    &&& forall|i: int| 0 <= i < layers.len() ==> #[trigger] layers[i] >= 1
}

/// Widths whose bias-augmented size still fits in a `usize`.
pub open spec fn layers_fit(layers: Seq<usize>) -> bool {
    forall|i: int| 0 <= i < layers.len() ==> #[trigger] layers[i] < usize::MAX
}

/// How many random draws the real rows of the first `k` matrices take: matrix
/// `t` has `layers[t + 1]` real rows of `layers[t] + 1` entries.
pub open spec fn draw_offset(layers: Seq<usize>, k: nat) -> nat
    decreases k,
{
    if k == 0 {
        0
    } else {
        draw_offset(layers, (k - 1) as nat) + layers[k as int] as nat * (layers[k - 1] as nat + 1)
    }
}

/// How many random draws a network of these widths takes.
pub open spec fn draw_count(layers: Seq<usize>) -> nat {
    if layers.len() < 2 {
        0
    } else {
        draw_offset(layers, (layers.len() - 1) as nat)
    }
}

/// The weight that a draw `u` from `[0, 1)` becomes: `u * 2 - 1`.
pub open spec fn unit_weight<N: Number>(u: N) -> N {
    u.spec_mul(N::spec_one().spec_add(N::spec_one())).spec_sub(N::spec_one())
}

/// Every real weight of `ms` comes from its draw, matrix by matrix and row
/// by row.
pub open spec fn drawn_weights<N: Number>(
    layers: Seq<usize>,
    ms: Seq<Seq<Seq<N>>>,
    draws: Seq<N>,
) -> bool {
    forall|k: int, r: int, c: int|
        0 <= k < ms.len() && 0 <= r < layers[k + 1] && 0 <= c <= layers[k] ==> #[trigger] ms[k][r][c]
            == unit_weight(draws[draw_offset(layers, k as nat) + r * (layers[k] + 1) + c])
}

/// `m` has `rows` rows of `cols` entries each.
pub open spec fn has_shape<N>(m: Seq<Seq<N>>, rows: int, cols: int) -> bool {
    &&& m.len() == rows
    &&& forall|i: int| 0 <= i < rows ==> (#[trigger] m[i]).len() == cols
}

/// Matrix `k` maps layer `k` to layer `k + 1`, both augmented with a bias unit.
pub open spec fn shaped_like<N>(layers: Seq<usize>, ms: Seq<Seq<Seq<N>>>) -> bool {
    &&& ms.len() + 1 == layers.len()
    &&& forall|k: int|
        0 <= k < ms.len() ==> has_shape(#[trigger] ms[k], layers[k + 1] + 1, layers[k] + 1)
}

/// Gradient masks come last layer first: mask `t` fits matrix `len - 1 - t`.
pub open spec fn masks_fit<N>(layers: Seq<usize>, masks: Seq<Seq<Seq<N>>>) -> bool {
    &&& masks.len() + 1 == layers.len()
    &&& forall|t: int|
        0 <= t < masks.len() ==> has_shape(
            #[trigger] masks[t],
            layers[masks.len() - t] + 1,
            layers[masks.len() - 1 - t] + 1,
        )
}

/// The bias row passes the bias unit through: `z` everywhere but a final `o`.
pub open spec fn is_passthrough_row<N>(row: Seq<N>, z: N, o: N) -> bool {
    &&& row.len() >= 1
    &&& forall|j: int| 0 <= j < row.len() - 1 ==> #[trigger] row[j] == z
    &&& row.last() == o
}

/// Every matrix of `ms` ends in the same passthrough row pattern.
pub open spec fn passthrough_rows<N>(ms: Seq<Seq<Seq<N>>>, z: N, o: N) -> bool {
    forall|k: int| 0 <= k < ms.len() ==> is_passthrough_row((#[trigger] ms[k]).last(), z, o)
}

/// Every matrix of `a` has the same bias row as the matrix of `b` at its place.
pub open spec fn same_bias_rows<N>(a: Seq<Seq<Seq<N>>>, b: Seq<Seq<Seq<N>>>) -> bool {
    &&& a.len() == b.len()
    &&& forall|k: int| 0 <= k < a.len() ==> (#[trigger] a[k]).last() == b[k].last()
}

/// `data` holds only examples whose input and target fit `layers`.
pub open spec fn data_fits<N>(layers: Seq<usize>, data: Seq<(Vec<N>, Vec<N>)>) -> bool {
    forall|i: int|
        0 <= i < data.len() ==> {
            &&& (#[trigger] data[i]).0@.len() == layers[0]
            &&& data[i].1@.len() == layers.last()
        }
}


/// `tanh` of each entry, then the bias unit `one`.
fn encode<N: Number>(v: &[N]) -> (r: Vec<N>)
    requires
        v@.len() < usize::MAX,
    ensures
        r@ == encode_spec(v@),
{
    let mut r: Vec<N> = Vec::new();
    let mut i: usize = 0;
    while i < v.len()
        invariant
            i <= v@.len(),
            r@ == Seq::new(i as nat, |t: int| v@[t].spec_tanh()),
        decreases v@.len() - i,
    {
        r.push(v[i].tanh());
        i = i + 1;
        assert(r@ =~= Seq::new(i as nat, |t: int| v@[t].spec_tanh()));
    }
    r.push(N::one());
    assert(r@ =~= encode_spec(v@));
    r
}

/// The dot product of two vectors of equal length.
fn dot<N: Number>(a: &Vec<N>, b: &Vec<N>) -> (r: N)
    requires
        a@.len() == b@.len(),
    ensures
        r == dot_spec(a@, b@, b@.len()),
{
    let mut sum = N::zero();
    let mut i: usize = 0;
    while i < a.len()
        invariant
            i <= a@.len(),
            a@.len() == b@.len(),
            sum == dot_spec(a@, b@, i as nat),
        decreases a@.len() - i,
    {
        sum = sum.add(a[i].mul(b[i]));
        i = i + 1;
    }
    sum
}

/// `tanh(m · v)`, one entry per row of `m`.
fn activate<N: Number>(m: &Vec<Vec<N>>, v: &Vec<N>) -> (r: Vec<N>)
    requires
        forall|i: int| 0 <= i < m@.len() ==> (#[trigger] m@[i])@.len() == v@.len(),
    ensures
        r@ == activate_spec(matrix_view(*m), v@),
{
    let mut r: Vec<N> = Vec::new();
    let mut i: usize = 0;
    while i < m.len()
        invariant
            i <= m@.len(),
            r@ == Seq::new(i as nat, |t: int| dot_spec(m@[t]@, v@, v@.len()).spec_tanh()),
            forall|t: int| 0 <= t < m@.len() ==> (#[trigger] m@[t])@.len() == v@.len(),
        decreases m@.len() - i,
    {
        r.push(dot(&m[i], v).tanh());
        i = i + 1;
        assert(r@ =~= Seq::new(i as nat, |t: int| dot_spec(m@[t]@, v@, v@.len()).spec_tanh()));
    }
    assert(r@ =~= activate_spec(matrix_view(*m), v@));
    r
}

/// `mᵀ · e` for a matrix `m` whose rows have `cols` entries.
fn transpose_times<N: Number>(m: &Vec<Vec<N>>, e: &Vec<N>, cols: usize) -> (r: Vec<N>)
    requires
        m@.len() == e@.len(),
        forall|i: int| 0 <= i < m@.len() ==> (#[trigger] m@[i])@.len() == cols,
    ensures
        r@ == transpose_times_spec(matrix_view(*m), e@, cols as nat),
{
    let mut r: Vec<N> = Vec::new();
    let mut j: usize = 0;
    while j < cols
        invariant
            j <= cols,
            r@ == Seq::new(j as nat, |t: int| col_sum_spec(matrix_view(*m), e@, t, m@.len())),
            m@.len() == e@.len(),
            forall|t: int| 0 <= t < m@.len() ==> (#[trigger] m@[t])@.len() == cols,
        decreases cols - j,
    {
        let mut sum = N::zero();
        let mut i: usize = 0;
        while i < m.len()
            invariant
                i <= m@.len(),
                j < cols,
                sum == col_sum_spec(matrix_view(*m), e@, j as int, i as nat),
                m@.len() == e@.len(),
                forall|t: int| 0 <= t < m@.len() ==> (#[trigger] m@[t])@.len() == cols,
            decreases m@.len() - i,
        {
            assert(matrix_view(*m)[i as int] == m@[i as int]@);
            sum = sum.add(m[i][j].mul(e[i]));
            i = i + 1;
        }
        r.push(sum);
        j = j + 1;
        assert(r@ =~= Seq::new(j as nat, |t: int| col_sum_spec(matrix_view(*m), e@, t, m@.len())));
    }
    assert(r@ =~= transpose_times_spec(matrix_view(*m), e@, cols as nat));
    r
}

/// The error signal of a layer: `(1 - a²) * x`, entry by entry.
fn error_signal<N: Number>(a: &Vec<N>, x: &Vec<N>) -> (r: Vec<N>)
    requires
        a@.len() == x@.len(),
    ensures
        r@ == signal_spec(a@, x@),
{
    let mut r: Vec<N> = Vec::new();
    let mut i: usize = 0;
    while i < a.len()
        invariant
            i <= a@.len(),
            a@.len() == x@.len(),
            r@ == Seq::new(
                i as nat,
                |t: int| N::spec_one().spec_sub(a@[t].spec_mul(a@[t])).spec_mul(x@[t]),
            ),
        decreases a@.len() - i,
    {
        r.push(N::one().sub(a[i].mul(a[i])).mul(x[i]));
        i = i + 1;
        assert(r@ =~= Seq::new(
            i as nat,
            |t: int| N::spec_one().spec_sub(a@[t].spec_mul(a@[t])).spec_mul(x@[t]),
        ));
    }
    assert(r@ =~= signal_spec(a@, x@));
    r
}

/// `a - b`, entry by entry.
fn difference<N: Number>(a: &Vec<N>, b: &Vec<N>) -> (r: Vec<N>)
    requires
        a@.len() == b@.len(),
    ensures
        r@ == diff_spec(a@, b@),
{
    let mut r: Vec<N> = Vec::new();
    let mut i: usize = 0;
    while i < a.len()
        invariant
            i <= a@.len(),
            a@.len() == b@.len(),
            r@ == Seq::new(i as nat, |t: int| a@[t].spec_sub(b@[t])),
        decreases a@.len() - i,
    {
        r.push(a[i].sub(b[i]));
        i = i + 1;
        assert(r@ =~= Seq::new(i as nat, |t: int| a@[t].spec_sub(b@[t])));
    }
    assert(r@ =~= diff_spec(a@, b@));
    r
}

/// The gradient mask `scale * e * prevᵀ`, with the bias row left at zero.
fn outer_mask<N: Number>(e: &Vec<N>, prev: &Vec<N>, scale: N) -> (m: Vec<Vec<N>>)
    ensures
        has_shape(matrix_view(m), e@.len() as int, prev@.len() as int),
        matrix_view(m) == mask_spec(e@, prev@, scale),
{
    let mut m: Vec<Vec<N>> = Vec::new();
    let mut i: usize = 0;
    while i < e.len()
        invariant
            i <= e@.len(),
            m@.len() == i,
            forall|t: int| 0 <= t < i ==> (#[trigger] m@[t])@.len() == prev@.len(),
            forall|t: int| 0 <= t < i ==> (#[trigger] m@[t])@ == mask_spec(e@, prev@, scale)[t],
        decreases e@.len() - i,
    {
        let mut row: Vec<N> = Vec::new();
        let mut j: usize = 0;
        while j < prev.len()
            invariant
                j <= prev@.len(),
                i < e@.len(),
                row@ == mask_spec(e@, prev@, scale)[i as int].subrange(0, j as int),
            decreases prev@.len() - j,
        {
            if i < e.len() - 1 {
                row.push(scale.mul(e[i]).mul(prev[j]));
            } else {
                row.push(N::zero());
            }
            j = j + 1;
            assert(row@ =~= mask_spec(e@, prev@, scale)[i as int].subrange(0, j as int));
        }
        assert(row@ =~= mask_spec(e@, prev@, scale)[i as int]);
        m.push(row);
        i = i + 1;
    }
    assert(matrix_view(m) =~= mask_spec(e@, prev@, scale));
    m
}

/// `m + d` on every row but the last; the last row of `m` is kept.
fn add_except_bias<N: Number>(m: &Vec<Vec<N>>, d: &Vec<Vec<N>>, cols: usize) -> (r: Vec<Vec<N>>)
    requires
        m@.len() >= 1,
        has_shape(matrix_view(*m), m@.len() as int, cols as int),
        has_shape(matrix_view(*d), m@.len() as int, cols as int),
    ensures
        has_shape(matrix_view(r), m@.len() as int, cols as int),
        matrix_view(r).last() == matrix_view(*m).last(),
        matrix_view(r) == add_except_bias_spec(matrix_view(*m), matrix_view(*d)),
{
    let mut r: Vec<Vec<N>> = Vec::new();
    let mut i: usize = 0;
    while i < m.len()
        invariant
            i <= m@.len(),
            r@.len() == i,
            has_shape(matrix_view(*m), m@.len() as int, cols as int),
            has_shape(matrix_view(*d), m@.len() as int, cols as int),
            forall|t: int| 0 <= t < i ==> (#[trigger] r@[t])@.len() == cols,
            forall|t: int|
                0 <= t < i ==> (#[trigger] r@[t])@ == add_except_bias_spec(
                    matrix_view(*m),
                    matrix_view(*d),
                )[t],
            i == m@.len() ==> r@[i - 1]@ == m@[i - 1]@,
        decreases m@.len() - i,
    {
        assert(matrix_view(*m)[i as int] == m@[i as int]@);
        assert(matrix_view(*d)[i as int] == d@[i as int]@);
        let mut row: Vec<N> = Vec::new();
        let mut j: usize = 0;
        while j < cols
            invariant
                j <= cols,
                i < m@.len(),
                d@.len() == m@.len(),
                m@[i as int]@.len() == cols,
                d@[i as int]@.len() == cols,
                row@.len() == j,
                i + 1 == m@.len() ==> row@ == m@[i as int]@.subrange(0, j as int),
                i + 1 < m@.len() ==> row@ == Seq::new(
                    j as nat,
                    |t: int| m@[i as int]@[t].spec_add(d@[i as int]@[t]),
                ),
            decreases cols - j,
        {
            if i < m.len() - 1 {
                row.push(m[i][j].add(d[i][j]));
            } else {
                row.push(m[i][j]);
            }
            j = j + 1;
            assert(i + 1 == m@.len() ==> row@ =~= m@[i as int]@.subrange(0, j as int));
            assert(i + 1 < m@.len() ==> row@ =~= Seq::new(
                j as nat,
                |t: int| m@[i as int]@[t].spec_add(d@[i as int]@[t]),
            ));
        }
        assert(i + 1 == m@.len() ==> row@ =~= m@[i as int]@);
        assert(row@ =~= add_except_bias_spec(matrix_view(*m), matrix_view(*d))[i as int]);
        r.push(row);
        i = i + 1;
    }
    assert(matrix_view(r) =~= add_except_bias_spec(matrix_view(*m), matrix_view(*d)));
    r
}


/// Training keeps the bias rows: when every matrix of `before` ends in the
/// passthrough row of `z` and `o`, and `after` has the same bias rows as
/// `before`, every matrix of `after` ends in that passthrough row too.
pub proof fn lemma_passthrough_kept<N>(
    before: Seq<Seq<Seq<N>>>,
    after: Seq<Seq<Seq<N>>>,
    z: N,
    o: N,
)
    requires
        passthrough_rows(before, z, o),
        same_bias_rows(after, before),
    ensures
        passthrough_rows(after, z, o),
{
    assert forall|k: int| 0 <= k < after.len() implies is_passthrough_row(
        (#[trigger] after[k]).last(),
        z,
        o,
    ) by {
        assert(after[k].last() == before[k].last());
        assert(is_passthrough_row(before[k].last(), z, o));
    }
}

/// The draws of the first `k` matrices never outnumber those of the first `n`.
proof fn lemma_offset_monotone(layers: Seq<usize>, k: nat, n: nat)
    requires
        k <= n,
        n < layers.len(),
    ensures
        draw_offset(layers, k) <= draw_offset(layers, n),
    decreases n - k,
{
    if k < n {
        lemma_offset_monotone(layers, k, (n - 1) as nat);
    }
}

/// Row-major positions: entry `(i, j)` of a `b`-row block of `a + 1` columns
/// lies inside the block, and row `i + 1` starts right after row `i`.
proof fn lemma_row_major(i: int, j: int, a: int, b: int)
    requires
        0 <= i < b,
        0 <= j <= a,
    ensures
        i * (a + 1) + j < b * (a + 1),
        (i + 1) * (a + 1) == i * (a + 1) + a + 1,
{
    assert(i * (a + 1) + j < b * (a + 1)) by (nonlinear_arith)
        requires
            0 <= i < b,
            0 <= j <= a,
    ;
    assert((i + 1) * (a + 1) == i * (a + 1) + a + 1) by (nonlinear_arith);
}

/// Whether the widths describe a network.
fn valid_layers(layers: &[usize]) -> (r: bool)
    ensures
        r == layers_valid(layers@),
{
    if layers.len() < 2 {
        return false;
    }
    let mut w: usize = 0;
    while w < layers.len()
        invariant
            w <= layers@.len(),
            forall|i: int| 0 <= i < w ==> #[trigger] layers@[i] >= 1,
        decreases layers@.len() - w,
    {
        if layers[w] == 0 {
            return false;
        }
        w = w + 1;
    }
    true
}

/// How many random draws a network of these widths takes.
fn draw_total(layers: &[usize]) -> (r: usize)
    requires
        layers@.len() >= 2,
        layers_fit(layers@),
        draw_count(layers@) <= usize::MAX,
    ensures
        r == draw_count(layers@),
{
    let mut total: usize = 0;
    let mut k: usize = 1;
    while k < layers.len()
        invariant
            1 <= k <= layers@.len(),
            layers@.len() >= 2,
            layers_fit(layers@),
            draw_count(layers@) <= usize::MAX,
            total == draw_offset(layers@, (k - 1) as nat),
        decreases layers@.len() - k,
    {
        proof {
            lemma_offset_monotone(layers@, k as nat, (layers@.len() - 1) as nat);
        }
        let block = layers[k] * (layers[k - 1] + 1);
        total = total + block;
        k = k + 1;
    }
    total
}

/// A feed forward network using backpropagation.
///
/// Matrix `k` has `layers[k + 1] + 1` rows and `layers[k] + 1` columns; the
/// extra row and column carry a bias unit through every layer.
#[derive(Debug, Clone)]
pub struct FeedForward<N> {
    layers: Vec<usize>,
    axons: Vec<Vec<Vec<N>>>,
    learning_rate: N,
    max_iterations: usize,
}

impl<N: Number> FeedForward<N> {
    /// The widths of the layers, input layer first.
    pub closed spec fn layer_widths(&self) -> Seq<usize> {
        self.layers@
    }

    /// The weight matrices, first layer transition first.
    pub closed spec fn matrices(&self) -> Seq<Seq<Seq<N>>> {
        stack_view(self.axons)
    }

    /// The bound on training iterations.
    pub closed spec fn iteration_bound(&self) -> usize {
        self.max_iterations
    }

    /// The learning rate.
    pub closed spec fn rate(&self) -> N {
        self.learning_rate
    }

    /// The network's invariant: valid widths and matrices of matching shape.
    pub open spec fn wf(&self) -> bool {
        &&& layers_valid(self.layer_widths())
        &&& layers_fit(self.layer_widths())
        &&& shaped_like(self.layer_widths(), self.matrices())
    }

    /// Create a new feed forward network with the specified layer sizes.
    ///
    /// The weights of the real units are drawn uniformly from `[-1, 1)`; the
    /// bias row of every matrix passes the bias unit through unchanged.
    pub fn new(layers: &[usize]) -> (r: Result<FeedForward<N>, NetworkError>)
        requires
            layers_fit(layers@),
            draw_count(layers@) <= usize::MAX,
        ensures
            r is Err <==> !layers_valid(layers@),
            r matches Err(e) ==> e == NetworkError::InvalidLayers,
            r matches Ok(net) ==> {
                &&& net.wf()
                &&& net.layer_widths() == layers@
                &&& net.matrices().len() == layers@.len() - 1
                &&& net.iteration_bound() == usize::MAX
                &&& net.rate() == N::spec_one().spec_div(
                    N::spec_from_usize(LEARNING_RATE_DENOMINATOR),
                )
                &&& passthrough_rows(net.matrices(), N::spec_zero(), N::spec_one())
            },
    {
        if !valid_layers(layers) {
            return Err(NetworkError::InvalidLayers);
        }
        let count = draw_total(layers);
        let mut draws: Vec<N> = Vec::new();
        let mut i: usize = 0;
        while i < count
            invariant
                i <= count,
                draws@.len() == i,
            decreases count - i,
        {
            draws.push(N::random());
            i = i + 1;
        }
        Self::from_draws(layers, draws.as_slice())
    }

    /// Create a network whose real weights come from `draws`, values in
    /// `[0, 1)` that are taken matrix by matrix and, inside a matrix, row by
    /// row: each draw `u` becomes the weight `u * 2 - 1`. The bias row of
    /// every matrix passes the bias unit through unchanged.
    pub fn from_draws(layers: &[usize], draws: &[N]) -> (r: Result<FeedForward<N>, NetworkError>)
        requires
            layers_fit(layers@),
            draw_count(layers@) <= usize::MAX,
        ensures
            r is Err <==> !layers_valid(layers@) || draws@.len() != draw_count(layers@),
            r matches Err(e) ==> e == if !layers_valid(layers@) {
                NetworkError::InvalidLayers
            } else {
                NetworkError::ShapeMismatch
            },
            r matches Ok(net) ==> {
                &&& net.wf()
                &&& net.layer_widths() == layers@
                &&& net.matrices().len() == layers@.len() - 1
                &&& net.iteration_bound() == usize::MAX
                &&& net.rate() == N::spec_one().spec_div(
                    N::spec_from_usize(LEARNING_RATE_DENOMINATOR),
                )
                &&& passthrough_rows(net.matrices(), N::spec_zero(), N::spec_one())
                &&& drawn_weights(layers@, net.matrices(), draws@)
            },
    {
        if !valid_layers(layers) {
            return Err(NetworkError::InvalidLayers);
        }
        let count = draw_total(layers);
        if draws.len() != count {
            return Err(NetworkError::ShapeMismatch);
        }
        let mut kept: Vec<usize> = Vec::new();
        let mut c: usize = 0;
        while c < layers.len()
            invariant
                c <= layers@.len(),
                kept@ == layers@.subrange(0, c as int),
            decreases layers@.len() - c,
        {
            kept.push(layers[c]);
            c = c + 1;
            assert(kept@ =~= layers@.subrange(0, c as int));
        }
        assert(kept@ =~= layers@);
        let z = N::zero();
        let o = N::one();
        let mut axons: Vec<Vec<Vec<N>>> = Vec::new();
        let mut offset: usize = 0;
        let mut k: usize = 0;
        while k < layers.len() - 1
            invariant
                layers@.len() >= 2,
                layers_fit(layers@),
                draws@.len() == draw_count(layers@),
                draw_count(layers@) <= usize::MAX,
                k + 1 <= layers@.len(),
                axons@.len() == k,
                offset == draw_offset(layers@, k as nat),
                forall|t: int|
                    0 <= t < k ==> has_shape(
                        #[trigger] matrix_view(axons@[t]),
                        layers@[t + 1] + 1,
                        layers@[t] + 1,
                    ),
                forall|t: int|
                    0 <= t < k ==> is_passthrough_row(
                        (#[trigger] matrix_view(axons@[t])).last(),
                        z,
                        o,
                    ),
                forall|t: int, r: int, c: int|
                    0 <= t < k && 0 <= r < layers@[t + 1] && 0 <= c <= layers@[t]
                        ==> #[trigger] matrix_view(axons@[t])[r][c] == unit_weight(
                        draws@[draw_offset(layers@, t as nat) + r * (layers@[t] + 1) + c],
                    ),
            decreases layers@.len() - k,
        {
            let a = layers[k];
            let b = layers[k + 1];
            proof {
                lemma_offset_monotone(layers@, (k + 1) as nat, (layers@.len() - 1) as nat);
                assert(draw_offset(layers@, (k + 1) as nat) == offset + b * (a + 1));
                assert(b * (a + 1) <= draws@.len());
                assert(offset + b * (a + 1) <= usize::MAX);
            }
            let a1: usize = a + 1;
            assert(b * a1 <= usize::MAX);
            let block: usize = b * a1;
            let m = Self::initial_matrix(a, b, draws, offset, z, o);
            axons.push(m);
            offset = offset + block;
            k = k + 1;
        }
        let net = FeedForward {
            layers: kept,
            axons,
            learning_rate: N::one().div(N::from_usize(LEARNING_RATE_DENOMINATOR)),
            max_iterations: usize::MAX,
        };
        assert(net.matrices().len() == layers@.len() - 1);
        assert forall|t: int| 0 <= t < net.matrices().len() implies has_shape(
            #[trigger] net.matrices()[t],
            layers@[t + 1] + 1,
            layers@[t] + 1,
        ) by {
            assert(net.matrices()[t] == matrix_view(axons@[t]));
        }
        assert forall|t: int| 0 <= t < net.matrices().len() implies is_passthrough_row(
            (#[trigger] net.matrices()[t]).last(),
            z,
            o,
        ) by {
            assert(net.matrices()[t] == matrix_view(axons@[t]));
        }
        assert(passthrough_rows(net.matrices(), z, o));
        assert forall|t: int, r: int, c: int|
            0 <= t < net.matrices().len() && 0 <= r < layers@[t + 1] && 0 <= c <= layers@[t]
                implies #[trigger] net.matrices()[t][r][c] == unit_weight(
            draws@[draw_offset(layers@, t as nat) + r * (layers@[t] + 1) + c],
        ) by {
            assert(net.matrices()[t] == matrix_view(axons@[t]));
        }
        Ok(net)
    }

    /// The activation trace of one forward pass: the encoded input, then
    /// `tanh(W_k · a_k)` for every matrix in order.
    fn run_full(&self, input: &[N]) -> (trace: Vec<Vec<N>>)
        requires
            self.wf(),
            input@.len() == self.layers@[0],
        ensures
            trace@.len() == self.layers@.len(),
            forall|k: int| 0 <= k < trace@.len() ==> (#[trigger] trace@[k])@.len() == self.layers@[k] + 1,
            matrix_view(trace) == forward_spec(self.matrices(), input@),
    {
        let mut trace: Vec<Vec<N>> = Vec::new();
        trace.push(encode(input));
        assert(matrix_view(trace) =~= trace_spec(self.matrices(), input@, 0));
        let mut k: usize = 0;
        while k < self.axons.len()
            invariant
                self.wf(),
                k <= self.axons@.len(),
                trace@.len() == k + 1,
                forall|t: int| 0 <= t <= k ==> (#[trigger] trace@[t])@.len() == self.layers@[t] + 1,
                matrix_view(trace) == trace_spec(self.matrices(), input@, k as nat),
            decreases self.axons@.len() - k,
        {
            assert(self.matrices()[k as int] == matrix_view(self.axons@[k as int]));
            assert forall|i: int| 0 <= i < self.axons@[k as int]@.len() implies (
            #[trigger] self.axons@[k as int]@[i])@.len() == trace@[k as int]@.len() by {
                assert(self.matrices()[k as int][i] == self.axons@[k as int]@[i]@);
            }
            let next = activate(&self.axons[k], &trace[k]);
            let ghost before = trace@;
            trace.push(next);
            k = k + 1;
            assert(matrix_view(trace) =~= trace_spec(self.matrices(), input@, k as nat)) by {
                let prev = trace_spec(self.matrices(), input@, (k - 1) as nat);
                assert(prev.last() == before[k - 1]@);
            }
        }
        trace
    }

    /// The decoded output: the last activation without its bias unit, through
    /// `atanh`.
    fn output(&self, input: &[N]) -> (r: Vec<N>)
        requires
            self.wf(),
            input@.len() == self.layers@[0],
        ensures
            r@.len() == self.layers@.last(),
            r@ == run_spec(self.matrices(), input@),
    {
        let trace = self.run_full(input);
        let last = &trace[trace.len() - 1];
        assert(last@ == forward_spec(self.matrices(), input@).last());
        let mut r: Vec<N> = Vec::new();
        let mut i: usize = 0;
        while i < last.len() - 1
            invariant
                last@.len() >= 1,
                i <= last@.len() - 1,
                r@ == Seq::new(i as nat, |t: int| last@[t].spec_atanh()),
            decreases last@.len() - 1 - i,
        {
            r.push(last[i].atanh());
            i = i + 1;
            assert(r@ =~= Seq::new(i as nat, |t: int| last@[t].spec_atanh()));
        }
        assert(r@ =~= decode_spec(last@));
        r
    }

    /// The gradient masks of one example, last layer first. Each mask has
    /// the shape of its matrix; its bias row is zero.
    pub fn compute_gradients(&self, input: &[N], target: &[N]) -> (masks: Vec<Vec<Vec<N>>>)
        requires
            self.wf(),
            input@.len() == self.layer_widths()[0],
            target@.len() == self.layer_widths().last(),
        ensures
            masks_fit(self.layer_widths(), stack_view(masks)),
            stack_view(masks) == gradients_spec(self.matrices(), self.rate(), input@, target@),
    {
        let encoded = encode(target);
        let trace = self.run_full(input);
        let scale = N::zero().sub(self.learning_rate);
        let count = self.axons.len();
        let ghost ms = self.matrices();
        let ghost tr = forward_spec(ms, input@);
        let mut masks: Vec<Vec<Vec<N>>> = Vec::new();
        let mut error: Vec<N> = Vec::new();
        let mut i: usize = count;
        while i > 0
            invariant
                self.wf(),
                ms == self.matrices(),
                tr == forward_spec(ms, input@),
                tr == matrix_view(trace),
                scale == N::spec_zero().spec_sub(self.learning_rate),
                count == self.axons@.len(),
                i <= count,
                encoded@ == encode_spec(target@),
                encoded@.len() == self.layers@.last() + 1,
                trace@.len() == self.layers@.len(),
                forall|k: int| 0 <= k < trace@.len() ==> (#[trigger] trace@[k])@.len() == self.layers@[k] + 1,
                i < count ==> error@ == error_spec(ms, tr, encoded@, i as int),
                masks@.len() == count - i,
                forall|t: int|
                    0 <= t < masks@.len() ==> has_shape(
                        #[trigger] matrix_view(masks@[t]),
                        self.layers@[count - t] + 1,
                        self.layers@[count - 1 - t] + 1,
                    ),
                forall|t: int|
                    0 <= t < masks@.len() ==> #[trigger] matrix_view(masks@[t]) == mask_spec(
                        error_spec(ms, tr, encoded@, count - 1 - t),
                        tr[count - 1 - t],
                        scale,
                    ),
            decreases i,
        {
            i = i - 1;
            let a = &trace[i + 1];
            assert(a@ == tr[i + 1]);
            assert(trace@[i as int]@ == tr[i as int]);
            let signal = if i == count - 1 {
                error_signal(a, &difference(a, &encoded))
            } else {
                let next = &self.axons[i + 1];
                assert(self.matrices()[i + 1] == matrix_view(self.axons@[i + 1]));
                assert forall|r: int| 0 <= r < next@.len() implies (#[trigger] next@[r])@.len()
                    == self.layers@[i + 1] + 1 by {
                    assert(self.matrices()[i + 1][r] == next@[r]@);
                }
                error_signal(a, &transpose_times(next, &error, self.layers[i + 1] + 1))
            };
            assert(signal@ == error_spec(ms, tr, encoded@, i as int));
            let mask = outer_mask(&signal, &trace[i], scale);
            masks.push(mask);
            error = signal;
        }
        assert(stack_view(masks) =~= gradients_spec(self.matrices(), self.rate(), input@, target@));
        assert forall|t: int| 0 <= t < stack_view(masks).len() implies has_shape(
            #[trigger] stack_view(masks)[t],
            self.layers@[stack_view(masks).len() - t] + 1,
            self.layers@[stack_view(masks).len() - 1 - t] + 1,
        ) by {
            assert(stack_view(masks)[t] == matrix_view(masks@[t]));
        }
        masks
    }

    /// Adds a mask sequence, last layer first, into the weights. Bias rows
    /// are left as they are.
    pub fn apply_gradients(&mut self, masks: &Vec<Vec<Vec<N>>>)
        requires
            old(self).wf(),
            masks_fit(old(self).layer_widths(), stack_view(*masks)),
        ensures
            final(self).wf(),
            final(self).layer_widths() == old(self).layer_widths(),
            final(self).rate() == old(self).rate(),
            final(self).iteration_bound() == old(self).iteration_bound(),
            same_bias_rows(final(self).matrices(), old(self).matrices()),
            final(self).matrices() == apply_spec(old(self).matrices(), stack_view(*masks)),
    {
        let count = self.axons.len();
        let mut updated: Vec<Vec<Vec<N>>> = Vec::new();
        let mut k: usize = 0;
        while k < count
            invariant
                self.wf(),
                count == self.axons@.len(),
                masks_fit(self.layers@, stack_view(*masks)),
                k <= count,
                updated@.len() == k,
                forall|t: int|
                    0 <= t < k ==> has_shape(
                        #[trigger] matrix_view(updated@[t]),
                        self.layers@[t + 1] + 1,
                        self.layers@[t] + 1,
                    ),
                forall|t: int|
                    0 <= t < k ==> (#[trigger] matrix_view(updated@[t])).last()
                        == self.matrices()[t].last(),
                forall|t: int|
                    0 <= t < k ==> #[trigger] matrix_view(updated@[t]) == apply_spec(
                        self.matrices(),
                        stack_view(*masks),
                    )[t],
            decreases count - k,
        {
            assert(self.matrices()[k as int] == matrix_view(self.axons@[k as int]));
            assert(stack_view(*masks)[count - 1 - k] == matrix_view(masks@[count - 1 - k]));
            let m = add_except_bias(&self.axons[k], &masks[count - 1 - k], self.layers[k] + 1);
            updated.push(m);
            k = k + 1;
        }
        let ghost before = self.matrices();
        self.axons = updated;
        assert forall|t: int| 0 <= t < self.matrices().len() implies has_shape(
            #[trigger] self.matrices()[t],
            self.layers@[t + 1] + 1,
            self.layers@[t] + 1,
        ) && self.matrices()[t].last() == before[t].last() by {
            assert(self.matrices()[t] == matrix_view(updated@[t]));
        }
        assert(self.matrices() =~= apply_spec(before, stack_view(*masks))) by {
            assert forall|t: int| 0 <= t < self.matrices().len() implies self.matrices()[t]
                == apply_spec(before, stack_view(*masks))[t] by {
                assert(self.matrices()[t] == matrix_view(updated@[t]));
            }
        }
    }

    /// The squared distance between the network's output and `target`.
    fn error(&self, input: &[N], target: &[N]) -> (r: N)
        requires
            self.wf(),
            input@.len() == self.layers@[0],
            target@.len() == self.layers@.last(),
        ensures
            r == example_error_spec(self.matrices(), input@, target@),
    {
        let result = self.output(input);
        let mut sum = N::zero();
        let mut i: usize = 0;
        while i < result.len()
            invariant
                i <= result@.len(),
                result@.len() == target@.len(),
                result@ == run_spec(self.matrices(), input@),
                sum == squared_spec(result@, target@, i as nat),
            decreases result@.len() - i,
        {
            let d = result[i].sub(target[i]);
            sum = sum.add(d.mul(d));
            i = i + 1;
        }
        sum
    }

    /// The mean squared error over a dataset.
    pub fn mean_error(&self, data: &Vec<(Vec<N>, Vec<N>)>) -> (r: N)
        requires
            self.wf(),
            data_fits(self.layer_widths(), data@),
        ensures
            r == mean_error_spec(self.matrices(), data@),
    {
        let mut total = N::zero();
        let mut i: usize = 0;
        while i < data.len()
            invariant
                self.wf(),
                i <= data@.len(),
                data_fits(self.layers@, data@),
                total == total_error_spec(self.matrices(), data@, i as nat),
            decreases data@.len() - i,
        {
            assert(data_fits(self.layers@, data@));
            let example = &data[i];
            total = total.add(self.error(example.0.as_slice(), example.1.as_slice()));
            i = i + 1;
        }
        total.div(N::from_usize(data.len()))
    }

    /// Whether every example of `data` fits the network's layer widths.
    pub fn fits(&self, data: &Vec<(Vec<N>, Vec<N>)>) -> (r: bool)
        requires
            self.wf(),
        ensures
            r == data_fits(self.layer_widths(), data@),
    {
        let first = self.layers[0];
        let last = self.layers[self.layers.len() - 1];
        let mut i: usize = 0;
        while i < data.len()
            invariant
                i <= data@.len(),
                first == self.layers@[0],
                last == self.layers@.last(),
                forall|t: int|
                    0 <= t < i ==> {
                        &&& (#[trigger] data@[t]).0@.len() == self.layers@[0]
                        &&& data@[t].1@.len() == self.layers@.last()
                    },
            decreases data@.len() - i,
        {
            if data[i].0.len() != first || data[i].1.len() != last {
                return false;
            }
            i = i + 1;
        }
        true
    }

    /// One training iteration: the masks of every example are computed on
    /// the current weights, then all are added in, and the mean error of the
    /// updated network is returned.
    pub fn train_epoch(&mut self, data: &Vec<(Vec<N>, Vec<N>)>) -> (mean: N)
        requires
            old(self).wf(),
            data_fits(old(self).layer_widths(), data@),
        ensures
            final(self).wf(),
            final(self).layer_widths() == old(self).layer_widths(),
            final(self).rate() == old(self).rate(),
            final(self).iteration_bound() == old(self).iteration_bound(),
            same_bias_rows(final(self).matrices(), old(self).matrices()),
            final(self).matrices() == epoch_spec(old(self).matrices(), old(self).rate(), data@),
            mean == mean_error_spec(final(self).matrices(), data@),
    {
        let mut all: Vec<Vec<Vec<Vec<N>>>> = Vec::new();
        let mut i: usize = 0;
        while i < data.len()
            invariant
                self.wf(),
                i <= data@.len(),
                data_fits(self.layers@, data@),
                all@.len() == i,
                forall|t: int| 0 <= t < i ==> masks_fit(self.layers@, #[trigger] stack_view(all@[t])),
                forall|t: int|
                    0 <= t < i ==> #[trigger] stack_view(all@[t]) == gradients_spec(
                        self.matrices(),
                        self.learning_rate,
                        data@[t].0@,
                        data@[t].1@,
                    ),
            decreases data@.len() - i,
        {
            assert(data_fits(self.layers@, data@));
            let example = &data[i];
            let masks = self.compute_gradients(example.0.as_slice(), example.1.as_slice());
            all.push(masks);
            i = i + 1;
        }
        let ghost start = self.matrices();
        let mut j: usize = 0;
        while j < all.len()
            invariant
                self.wf(),
                j <= all@.len(),
                self.layers@ == old(self).layers@,
                self.learning_rate == old(self).learning_rate,
                self.max_iterations == old(self).max_iterations,
                same_bias_rows(self.matrices(), start),
                data_fits(self.layers@, data@),
                all@.len() == data@.len(),
                start == old(self).matrices(),
                self.matrices() == accumulate_spec(start, self.learning_rate, data@, j as nat),
                forall|t: int| 0 <= t < all@.len() ==> masks_fit(self.layers@, #[trigger] stack_view(all@[t])),
                forall|t: int|
                    0 <= t < all@.len() ==> #[trigger] stack_view(all@[t]) == gradients_spec(
                        start,
                        self.learning_rate,
                        data@[t].0@,
                        data@[t].1@,
                    ),
            decreases all@.len() - j,
        {
            assert(masks_fit(self.layers@, stack_view(all@[j as int])));
            self.apply_gradients(&all[j]);
            j = j + 1;
        }
        self.mean_error(data)
    }

    /// Trains until the mean error is at most `target` or the iteration bound
    /// is reached. Bias rows are never changed.
    pub fn train_until(&mut self, target: N, data: &Vec<(Vec<N>, Vec<N>)>) -> (r: Result<
        TrainOutcome,
        NetworkError,
    >)
        requires
            old(self).wf(),
        ensures
            final(self).wf(),
            final(self).layer_widths() == old(self).layer_widths(),
            final(self).rate() == old(self).rate(),
            final(self).iteration_bound() == old(self).iteration_bound(),
            same_bias_rows(final(self).matrices(), old(self).matrices()),
            r is Ok <==> data_fits(old(self).layer_widths(), data@),
            r matches Err(e) ==> e == NetworkError::ShapeMismatch && *final(self) == *old(self),
            r == Ok::<TrainOutcome, NetworkError>(TrainOutcome::Converged) ==> exists|j: nat|
                {
                    &&& 1 <= j <= old(self).iteration_bound()
                    &&& final(self).matrices() == #[trigger] epochs_spec(
                        old(self).matrices(),
                        old(self).rate(),
                        data@,
                        j,
                    )
                    &&& reaches_target(old(self).matrices(), old(self).rate(), data@, target, j)
                    &&& forall|i: nat|
                        1 <= i < j ==> !#[trigger] reaches_target(
                            old(self).matrices(),
                            old(self).rate(),
                            data@,
                            target,
                            i,
                        )
                },
            r == Ok::<TrainOutcome, NetworkError>(TrainOutcome::MaxIterationsReached) ==> {
                &&& final(self).matrices() == epochs_spec(
                    old(self).matrices(),
                    old(self).rate(),
                    data@,
                    old(self).iteration_bound() as nat,
                )
                &&& forall|i: nat|
                    1 <= i <= old(self).iteration_bound() ==> !#[trigger] reaches_target(
                        old(self).matrices(),
                        old(self).rate(),
                        data@,
                        target,
                        i,
                    )
            },
            r == Ok::<TrainOutcome, NetworkError>(TrainOutcome::Converged) ==> mean_error_spec(
                final(self).matrices(),
                data@,
            ).spec_le(target),
    {
        if !self.fits(data) {
            return Err(NetworkError::ShapeMismatch);
        }
        let ghost start = self.matrices();
        let mut iteration: usize = 0;
        while iteration < self.max_iterations
            invariant
                self.wf(),
                self.layers@ == old(self).layers@,
                self.learning_rate == old(self).learning_rate,
                self.max_iterations == old(self).max_iterations,
                same_bias_rows(self.matrices(), start),
                start == old(self).matrices(),
                data_fits(self.layers@, data@),
                iteration <= self.max_iterations,
                self.matrices() == epochs_spec(start, self.learning_rate, data@, iteration as nat),
                forall|i: nat|
                    1 <= i <= iteration ==> !#[trigger] reaches_target(
                        start,
                        self.learning_rate,
                        data@,
                        target,
                        i,
                    ),
            decreases self.max_iterations - iteration,
        {
            let error = self.train_epoch(data);
            iteration = iteration + 1;
            assert(self.matrices() == epochs_spec(start, self.learning_rate, data@, iteration as nat));
            if error.le(target) {
                let ghost j = iteration as nat;
                assert(reaches_target(start, self.learning_rate, data@, target, j));
                assert(forall|i: nat|
                    1 <= i < j ==> !#[trigger] reaches_target(
                        start,
                        self.learning_rate,
                        data@,
                        target,
                        i,
                    ));
                assert(self.matrices() == epochs_spec(start, self.learning_rate, data@, j));
                assert(old(self).rate() == self.learning_rate);
                assert(old(self).iteration_bound() == self.max_iterations);
                assert({
                    &&& 1 <= j <= old(self).iteration_bound()
                    &&& self.matrices() == epochs_spec(
                        old(self).matrices(),
                        old(self).rate(),
                        data@,
                        j,
                    )
                    &&& reaches_target(old(self).matrices(), old(self).rate(), data@, target, j)
                    &&& forall|i: nat|
                        1 <= i < j ==> !#[trigger] reaches_target(
                            old(self).matrices(),
                            old(self).rate(),
                            data@,
                            target,
                            i,
                        )
                });
                return Ok(TrainOutcome::Converged);
            }
        }
        Ok(TrainOutcome::MaxIterationsReached)
    }

    /// The same network with another learning rate.
    pub fn with_learning_rate(self, rate: N) -> (r: FeedForward<N>)
        ensures
            r.layer_widths() == self.layer_widths(),
            r.matrices() == self.matrices(),
            r.iteration_bound() == self.iteration_bound(),
            r.rate() == rate,
            r.wf() == self.wf(),
    {
        FeedForward { learning_rate: rate, ..self }
    }

    /// The same network with another bound on training iterations.
    pub fn with_max_iterations(self, bound: usize) -> (r: FeedForward<N>)
        ensures
            r.layer_widths() == self.layer_widths(),
            r.matrices() == self.matrices(),
            r.iteration_bound() == bound,
            r.rate() == self.rate(),
            r.wf() == self.wf(),
    {
        FeedForward { max_iterations: bound, ..self }
    }

    /// The layer widths, input layer first.
    pub fn layers(&self) -> (r: &Vec<usize>)
        ensures
            r@ == self.layer_widths(),
    {
        &self.layers
    }

    /// The weight matrices, first layer transition first, as rows.
    pub fn weights(&self) -> (r: &Vec<Vec<Vec<N>>>)
        ensures
            stack_view(*r) == self.matrices(),
    {
        &self.axons
    }

    /// The learning rate.
    pub fn learning_rate(&self) -> (r: N)
        ensures
            r == self.rate(),
    {
        self.learning_rate
    }

    /// The bound on training iterations.
    pub fn max_iterations(&self) -> (r: usize)
        ensures
            r == self.iteration_bound(),
    {
        self.max_iterations
    }

    /// A fresh matrix from a layer of width `a` to one of width `b`: the real
    /// rows take their weights from `draws`, row by row from `start`, then
    /// comes the bias passthrough row.
    fn initial_matrix(a: usize, b: usize, draws: &[N], start: usize, z: N, o: N) -> (m: Vec<
        Vec<N>,
    >)
        requires
            a < usize::MAX,
            b < usize::MAX,
            start + b * (a + 1) <= draws@.len(),
        ensures
            has_shape(matrix_view(m), b + 1, a + 1),
            is_passthrough_row(matrix_view(m).last(), z, o),
            forall|r: int, c: int|
                0 <= r < b && 0 <= c <= a ==> #[trigger] matrix_view(m)[r][c] == unit_weight(
                    draws@[start + r * (a + 1) + c],
                ),
    {
        let two = N::one().add(N::one());
        let mut m: Vec<Vec<N>> = Vec::new();
        let mut next: usize = start;
        let mut i: usize = 0;
        while i <= b
            invariant
                i <= b + 1,
                a < usize::MAX,
                b < usize::MAX,
                start + b * (a + 1) <= draws@.len(),
                two == N::spec_one().spec_add(N::spec_one()),
                i <= b ==> next == start + i * (a + 1),
                m@.len() == i,
                forall|t: int| 0 <= t < i ==> (#[trigger] m@[t])@.len() == a + 1,
                i == b + 1 ==> is_passthrough_row(m@[b as int]@, z, o),
                forall|t: int, c: int|
                    0 <= t < i && t < b && 0 <= c <= a ==> #[trigger] m@[t]@[c] == unit_weight(
                        draws@[start + t * (a + 1) + c],
                    ),
            decreases b + 1 - i,
        {
            let mut row: Vec<N> = Vec::new();
            let mut j: usize = 0;
            while j <= a
                invariant
                    j <= a + 1,
                    i <= b,
                    a < usize::MAX,
                    start + b * (a + 1) <= draws@.len(),
                    two == N::spec_one().spec_add(N::spec_one()),
                    i < b ==> next == start + i * (a + 1) + j,
                    row@.len() == j,
                    i < b ==> forall|s: int|
                        0 <= s < j ==> #[trigger] row@[s] == unit_weight(
                            draws@[start + i * (a + 1) + s],
                        ),
                    i == b ==> forall|s: int| 0 <= s < j && s < a ==> #[trigger] row@[s] == z,
                    i == b && j == a + 1 ==> row@[a as int] == o,
                decreases a + 1 - j,
            {
                if i < b {
                    proof {
                        lemma_row_major(i as int, j as int, a as int, b as int);
                    }
                    row.push(draws[next].mul(two).sub(N::one()));
                    next = next + 1;
                } else if j < a {
                    row.push(z);
                } else {
                    row.push(o);
                }
                j = j + 1;
            }
            if i < b {
                proof {
                    lemma_row_major(i as int, a as int, a as int, b as int);
                }
            }
            m.push(row);
            i = i + 1;
        }
        assert forall|r: int, c: int| 0 <= r < b && 0 <= c <= a implies #[trigger] matrix_view(
            m,
        )[r][c] == unit_weight(draws@[start + r * (a + 1) + c]) by {
            assert(matrix_view(m)[r] == m@[r]@);
        }
        m
    }
}

/// Construction is reproducible: two networks of the same widths whose real
/// weights come from the same draws, and whose bias rows pass the bias unit
/// through, have the same matrices.
pub proof fn lemma_same_draws_same_weights<N: Number>(
    a: FeedForward<N>,
    b: FeedForward<N>,
    draws: Seq<N>,
)
    requires
        a.wf(),
        b.wf(),
        a.layer_widths() == b.layer_widths(),
        passthrough_rows(a.matrices(), N::spec_zero(), N::spec_one()),
        passthrough_rows(b.matrices(), N::spec_zero(), N::spec_one()),
        drawn_weights(a.layer_widths(), a.matrices(), draws),
        drawn_weights(b.layer_widths(), b.matrices(), draws),
    ensures
        a.matrices() == b.matrices(),
{
    let layers = a.layer_widths();
    let ma = a.matrices();
    let mb = b.matrices();
    assert forall|k: int| 0 <= k < ma.len() implies ma[k] == mb[k] by {
        assert(has_shape(ma[k], layers[k + 1] + 1, layers[k] + 1));
        assert(has_shape(mb[k], layers[k + 1] + 1, layers[k] + 1));
        assert forall|r: int| 0 <= r < ma[k].len() implies ma[k][r] == mb[k][r] by {
            if r < layers[k + 1] {
                assert forall|c: int| 0 <= c < ma[k][r].len() implies ma[k][r][c] == mb[k][r][c] by {
                    assert(ma[k][r][c] == unit_weight(
                        draws[draw_offset(layers, k as nat) + r * (layers[k] + 1) + c],
                    ));
                    assert(mb[k][r][c] == unit_weight(
                        draws[draw_offset(layers, k as nat) + r * (layers[k] + 1) + c],
                    ));
                }
                assert(ma[k][r] =~= mb[k][r]);
            } else {
                assert(is_passthrough_row(ma[k].last(), N::spec_zero(), N::spec_one()));
                assert(is_passthrough_row(mb[k].last(), N::spec_zero(), N::spec_one()));
                assert(ma[k][r] =~= mb[k][r]);
            }
        }
        assert(ma[k] =~= mb[k]);
    }
    assert(ma =~= mb);
}

/// Running is a function of the weights and the input alone: two networks
/// with the same matrices give the same output for the same input, whatever
/// their learning rates, iteration bounds or history, and so do two runs of
/// one network.
pub proof fn lemma_run_depends_on_weights<N: Number>(
    a: FeedForward<N>,
    b: FeedForward<N>,
    input: Seq<N>,
)
    requires
        a.matrices() == b.matrices(),
    ensures
        a.spec_run(input) == b.spec_run(input),
{
}

impl<N: Number> Network<N> for FeedForward<N> {
    open spec fn well_formed(&self) -> bool {
        self.wf()
    }

    open spec fn input_width(&self) -> nat {
        self.layer_widths()[0] as nat
    }

    open spec fn output_width(&self) -> nat {
        self.layer_widths().last() as nat
    }

    open spec fn spec_run(&self, input: Seq<N>) -> Seq<N> {
        run_spec(self.matrices(), input)
    }

    fn run(&self, input: &[N]) -> (r: Result<Vec<N>, NetworkError>) {
        if input.len() != self.layers[0] {
            return Err(NetworkError::ShapeMismatch);
        }
        Ok(self.output(input))
    }

    fn train(&mut self, target: N, data: Vec<(Vec<N>, Vec<N>)>) -> (r: Result<
        TrainOutcome,
        NetworkError,
    >)
        ensures
            final(self).layer_widths() == old(self).layer_widths(),
            final(self).rate() == old(self).rate(),
            final(self).iteration_bound() == old(self).iteration_bound(),
            same_bias_rows(final(self).matrices(), old(self).matrices()),
            r is Ok <==> data_fits(old(self).layer_widths(), data@),
            r matches Err(e) ==> e == NetworkError::ShapeMismatch && *final(self) == *old(self),
            r == Ok::<TrainOutcome, NetworkError>(TrainOutcome::Converged) ==> exists|j: nat|
                {
                    &&& 1 <= j <= old(self).iteration_bound()
                    &&& final(self).matrices() == #[trigger] epochs_spec(
                        old(self).matrices(),
                        old(self).rate(),
                        data@,
                        j,
                    )
                    &&& reaches_target(old(self).matrices(), old(self).rate(), data@, target, j)
                    &&& forall|i: nat|
                        1 <= i < j ==> !#[trigger] reaches_target(
                            old(self).matrices(),
                            old(self).rate(),
                            data@,
                            target,
                            i,
                        )
                },
            r == Ok::<TrainOutcome, NetworkError>(TrainOutcome::MaxIterationsReached) ==> {
                &&& final(self).matrices() == epochs_spec(
                    old(self).matrices(),
                    old(self).rate(),
                    data@,
                    old(self).iteration_bound() as nat,
                )
                &&& forall|i: nat|
                    1 <= i <= old(self).iteration_bound() ==> !#[trigger] reaches_target(
                        old(self).matrices(),
                        old(self).rate(),
                        data@,
                        target,
                        i,
                    )
            },
            r == Ok::<TrainOutcome, NetworkError>(TrainOutcome::Converged) ==> mean_error_spec(
                final(self).matrices(),
                data@,
            ).spec_le(target),
    {
        self.train_until(target, &data)
    }
}

} // verus!
