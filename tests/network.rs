use feedforward::{FeedForward, Network, NetworkError, Number, TrainOutcome};

#[derive(Clone, Copy, Debug, PartialEq, PartialOrd)]
struct F(f32);

impl Number for F {
    fn spec_zero() -> Self {
        Self::zero()
    }

    fn spec_one() -> Self {
        Self::one()
    }

    fn spec_from_usize(n: usize) -> Self {
        Self::from_usize(n)
    }

    fn spec_add(self, other: Self) -> Self {
        Number::add(self, other)
    }

    fn spec_sub(self, other: Self) -> Self {
        Number::sub(self, other)
    }

    fn spec_mul(self, other: Self) -> Self {
        Number::mul(self, other)
    }

    fn spec_div(self, other: Self) -> Self {
        Number::div(self, other)
    }

    fn spec_tanh(self) -> Self {
        Number::tanh(self)
    }

    fn spec_atanh(self) -> Self {
        Number::atanh(self)
    }

    fn spec_le(self, other: Self) -> bool {
        Number::le(self, other)
    }

    fn zero() -> Self {
        F(0.0)
    }

    fn one() -> Self {
        F(1.0)
    }

    fn from_usize(n: usize) -> Self {
        F(n as f32)
    }

    fn add(self, other: Self) -> Self {
        F(self.0 + other.0)
    }

    fn sub(self, other: Self) -> Self {
        F(self.0 - other.0)
    }

    fn mul(self, other: Self) -> Self {
        F(self.0 * other.0)
    }

    fn div(self, other: Self) -> Self {
        F(self.0 / other.0)
    }

    fn tanh(self) -> Self {
        F(self.0.tanh())
    }

    fn atanh(self) -> Self {
        F(self.0.atanh())
    }

    fn le(self, other: Self) -> bool {
        self.0 <= other.0
    }

    fn random() -> Self {
        F(rand::random::<f32>())
    }
}

fn v(xs: &[f32]) -> Vec<F> {
    xs.iter().map(|x| F(*x)).collect()
}

fn one_hot_data() -> Vec<(Vec<F>, Vec<F>)> {
    vec![
        (v(&[0.0, 0.0]), v(&[1.0, 0.0, 0.0, 0.0])),
        (v(&[0.0, 1.0]), v(&[0.0, 1.0, 0.0, 0.0])),
        (v(&[1.0, 0.0]), v(&[0.0, 0.0, 1.0, 0.0])),
        (v(&[1.0, 1.0]), v(&[0.0, 0.0, 0.0, 1.0])),
    ]
}

fn argmax(xs: &[F]) -> usize {
    let mut best = 0;
    for i in 1..xs.len() {
        if xs[i].0 > xs[best].0 {
            best = i;
        }
    }
    best
}

#[test]
fn feed_forward() {
    let mut network = FeedForward::<F>::new(&[2, 10, 20, 30, 20, 10, 4]).unwrap();

    let data = one_hot_data();

    let outcome = network.train(F(0.01), data);
    assert_eq!(outcome, Ok(TrainOutcome::Converged));
    let output = network.run(&v(&[0.5, 1.0])).unwrap();
    println!("{:?}", output);
    assert_eq!(output.len(), 4);
}

#[test]
fn new_builds_shaped_matrices_with_passthrough_rows() {
    for layers in [vec![1, 1], vec![2, 3], vec![2, 10, 20, 30, 20, 10, 4], vec![5, 1, 7]] {
        let network = FeedForward::<F>::new(&layers).unwrap();
        let weights = network.weights();
        assert_eq!(weights.len(), layers.len() - 1);
        assert_eq!(network.layers(), &layers);
        for (k, m) in weights.iter().enumerate() {
            assert_eq!(m.len(), layers[k + 1] + 1);
            for row in m {
                assert_eq!(row.len(), layers[k] + 1);
            }
            let bias = &m[m.len() - 1];
            for j in 0..bias.len() - 1 {
                assert_eq!(bias[j], F(0.0));
            }
            assert_eq!(bias[bias.len() - 1], F(1.0));
            for row in &m[..m.len() - 1] {
                for w in row {
                    assert!(w.0 >= -1.0 && w.0 <= 1.0);
                }
            }
        }
    }
}

#[test]
fn new_rejects_invalid_layers() {
    assert_eq!(FeedForward::<F>::new(&[]).unwrap_err(), NetworkError::InvalidLayers);
    assert_eq!(FeedForward::<F>::new(&[3]).unwrap_err(), NetworkError::InvalidLayers);
    assert_eq!(FeedForward::<F>::new(&[2, 0, 1]).unwrap_err(), NetworkError::InvalidLayers);
    assert_eq!(FeedForward::<F>::new(&[0, 2]).unwrap_err(), NetworkError::InvalidLayers);
}

#[test]
fn run_gives_finite_output_of_last_width() {
    let network = FeedForward::<F>::new(&[3, 8, 5]).unwrap();
    for input in [[0.0, 0.0, 0.0], [0.5, -0.5, 0.9], [-0.99, 0.99, 0.1]] {
        let output = network.run(&v(&input)).unwrap();
        assert_eq!(output.len(), 5);
        assert!(output.iter().all(|x| x.0.is_finite()));
    }
}

#[test]
fn run_rejects_wrong_width() {
    let network = FeedForward::<F>::new(&[2, 3]).unwrap();
    assert_eq!(network.run(&v(&[0.1])), Err(NetworkError::ShapeMismatch));
    assert_eq!(network.run(&v(&[0.1, 0.2, 0.3])), Err(NetworkError::ShapeMismatch));
}

#[test]
fn run_is_repeatable_and_read_only() {
    let network = FeedForward::<F>::new(&[2, 6, 3]).unwrap();
    let before = network.weights().clone();
    let first = network.run(&v(&[0.25, -0.75])).unwrap();
    let second = network.run(&v(&[0.25, -0.75])).unwrap();
    assert_eq!(first, second);
    assert_eq!(network.weights(), &before);
}

#[test]
fn run_matches_the_formula_on_one_weight() {
    let network = FeedForward::<F>::new(&[1, 1]).unwrap();
    let w = network.weights()[0][0].clone();
    let x: f32 = 0.3;
    let expected = (w[0].0 * x.tanh() + w[1].0).tanh().atanh();
    let output = network.run(&v(&[x])).unwrap();
    assert!((output[0].0 - expected).abs() < 1e-5);
}

#[test]
fn convergence_scenario_places_highest_output_on_target() {
    let mut network = FeedForward::<F>::new(&[2, 10, 20, 30, 20, 10, 4]).unwrap();
    let data = one_hot_data();
    assert_eq!(network.train(F(0.01), data.clone()), Ok(TrainOutcome::Converged));
    assert!(network.mean_error(&data).0 <= 0.01);
    for (input, target) in &data {
        let output = network.run(input).unwrap();
        assert_eq!(argmax(&output), argmax(target));
    }
}

#[test]
fn boundary_inputs_are_encoded_before_use() {
    // Inputs go through tanh before the first matrix, so the end points of
    // (-1, 1) stay finite; only an activation that saturates at exactly one
    // would make the decoding diverge.
    let network = FeedForward::<F>::new(&[2, 4, 2]).unwrap();
    let output = network.run(&v(&[1.0, -1.0])).unwrap();
    assert!(output.iter().all(|x| x.0.is_finite()));
    assert!(F(1.0).atanh().0.is_infinite());
    assert!(F(-1.0).atanh().0.is_infinite());
}

#[test]
fn shuffled_dataset_gives_same_error_after_one_iteration() {
    let network = FeedForward::<F>::new(&[2, 10, 4]).unwrap().with_learning_rate(F(0.01));
    let data = one_hot_data();
    let mut shuffled = data.clone();
    shuffled.reverse();
    shuffled.swap(0, 2);
    let mut a = network.clone();
    let mut b = network.clone();
    let ea = a.train_epoch(&data);
    let eb = b.train_epoch(&shuffled);
    assert!((ea.0 - eb.0).abs() < 1e-5);
    for (ma, mb) in a.weights().iter().zip(b.weights()) {
        for (ra, rb) in ma.iter().zip(mb) {
            for (x, y) in ra.iter().zip(rb) {
                assert!((x.0 - y.0).abs() < 1e-5);
            }
        }
    }
}

#[test]
fn train_rejects_mismatched_data() {
    let mut network = FeedForward::<F>::new(&[2, 3, 4]).unwrap();
    let before = network.weights().clone();
    let data = vec![(v(&[0.0, 0.0]), v(&[1.0, 0.0, 0.0, 0.0])), (v(&[0.0]), v(&[0.0, 1.0, 0.0, 0.0]))];
    assert_eq!(network.train(F(0.01), data), Err(NetworkError::ShapeMismatch));
    let data = vec![(v(&[0.0, 0.0]), v(&[1.0, 0.0]))];
    assert_eq!(network.train(F(0.01), data), Err(NetworkError::ShapeMismatch));
    assert_eq!(network.weights(), &before);
}

#[test]
fn train_with_zero_bound_changes_nothing() {
    let mut network = FeedForward::<F>::new(&[2, 3, 4]).unwrap().with_max_iterations(0);
    let before = network.weights().clone();
    assert_eq!(network.train(F(0.0), one_hot_data()), Ok(TrainOutcome::MaxIterationsReached));
    assert_eq!(network.weights(), &before);
}

#[test]
fn unreachable_target_stops_at_the_bound() {
    let mut network = FeedForward::<F>::new(&[2, 3, 4]).unwrap().with_max_iterations(5);
    assert_eq!(network.max_iterations(), 5);
    assert_eq!(network.train(F(-1.0), one_hot_data()), Ok(TrainOutcome::MaxIterationsReached));
}

#[test]
fn training_keeps_bias_rows() {
    let mut network = FeedForward::<F>::new(&[2, 5, 4]).unwrap().with_max_iterations(20);
    let before = network.weights().clone();
    network.train(F(0.0), one_hot_data()).unwrap();
    let after = network.weights();
    let mut changed = false;
    for (mb, ma) in before.iter().zip(after) {
        assert_eq!(mb[mb.len() - 1], ma[ma.len() - 1]);
        if mb[..mb.len() - 1] != ma[..ma.len() - 1] {
            changed = true;
        }
    }
    assert!(changed);
}

#[test]
fn gradients_match_the_formula_on_one_layer() {
    let network = FeedForward::<F>::new(&[1, 1]).unwrap().with_learning_rate(F(0.5));
    assert_eq!(network.learning_rate(), F(0.5));
    let w = network.weights()[0][0].clone();
    let x: f32 = 0.4;
    let t: f32 = -0.2;
    let prev = [x.tanh(), 1.0];
    let a = (w[0].0 * prev[0] + w[1].0 * prev[1]).tanh();
    let e = (1.0 - a * a) * (a - t.tanh());
    let masks = network.compute_gradients(&v(&[x]), &v(&[t]));
    assert_eq!(masks.len(), 1);
    assert_eq!(masks[0].len(), 2);
    for c in 0..2 {
        assert!((masks[0][0][c].0 - (-0.5 * e * prev[c])).abs() < 1e-5);
        assert_eq!(masks[0][1][c], F(0.0));
    }
}

#[test]
fn gradients_come_last_layer_first() {
    let network = FeedForward::<F>::new(&[2, 3, 5]).unwrap();
    let masks = network.compute_gradients(&v(&[0.1, 0.2]), &v(&[0.0, 0.5, 0.0, 0.0, 0.0]));
    assert_eq!(masks.len(), 2);
    assert_eq!((masks[0].len(), masks[0][0].len()), (6, 4));
    assert_eq!((masks[1].len(), masks[1][0].len()), (4, 3));
}

#[test]
fn apply_gradients_adds_all_but_the_bias_row() {
    let mut network = FeedForward::<F>::new(&[1, 2]).unwrap();
    let before = network.weights().clone();
    let mask = vec![v(&[0.5, -0.25]), v(&[1.0, 2.0]), v(&[3.0, 4.0])];
    network.apply_gradients(&vec![mask]);
    let after = network.weights();
    assert_eq!(after[0][0][0].0, before[0][0][0].0 + 0.5);
    assert_eq!(after[0][0][1].0, before[0][0][1].0 - 0.25);
    assert_eq!(after[0][1][0].0, before[0][1][0].0 + 1.0);
    assert_eq!(after[0][1][1].0, before[0][1][1].0 + 2.0);
    assert_eq!(after[0][2], before[0][2]);
}

#[test]
fn mean_error_matches_the_formula() {
    let network = FeedForward::<F>::new(&[1, 1]).unwrap();
    let data = vec![(v(&[0.2]), v(&[0.5])), (v(&[-0.6]), v(&[0.0]))];
    let mut total = 0.0;
    for (input, target) in &data {
        let out = network.run(input).unwrap();
        total += (out[0].0 - target[0].0) * (out[0].0 - target[0].0);
    }
    let mean = network.mean_error(&data);
    assert!((mean.0 - total / 2.0).abs() < 1e-5);
    assert!(network.fits(&data));
    assert!(!network.fits(&vec![(v(&[0.2, 0.1]), v(&[0.5]))]));
}

#[test]
fn bounded_training_equals_repeated_epochs() {
    let network = FeedForward::<F>::new(&[2, 6, 4]).unwrap().with_max_iterations(3);
    let data = one_hot_data();
    let mut a = network.clone();
    let mut b = network.clone();
    assert_eq!(a.train_until(F(-1.0), &data), Ok(TrainOutcome::MaxIterationsReached));
    let mut last = F(0.0);
    for _ in 0..3 {
        last = b.train_epoch(&data);
    }
    assert_eq!(a.weights(), b.weights());
    assert_eq!(a.mean_error(&data), last);
}

#[test]
fn converged_training_stops_at_first_iteration_under_target() {
    let network = FeedForward::<F>::new(&[2, 6, 4]).unwrap().with_max_iterations(50);
    let data = one_hot_data();
    let mut a = network.clone();
    let mut b = network.clone();
    // The error after one iteration is certainly below this target.
    assert_eq!(a.train_until(F(1.0e6), &data), Ok(TrainOutcome::Converged));
    b.train_epoch(&data);
    assert_eq!(a.weights(), b.weights());
}

#[test]
fn new_uses_the_default_learning_rate_and_no_bound() {
    let network = FeedForward::<F>::new(&[2, 3]).unwrap();
    assert_eq!(network.learning_rate(), F(1.0 / 1000.0));
    assert_eq!(network.max_iterations(), usize::MAX);
}

#[test]
fn from_draws_turns_each_draw_into_a_weight() {
    let network = FeedForward::<F>::from_draws(&[1, 2], &v(&[0.0, 0.25, 0.5, 0.75])).unwrap();
    let w = network.weights();
    assert_eq!(w.len(), 1);
    assert_eq!(w[0], vec![v(&[-1.0, -0.5]), v(&[0.0, 0.5]), v(&[0.0, 1.0])]);
}

#[test]
fn from_draws_fills_matrices_in_order() {
    let draws = [0.1f32, 0.2, 0.3, 0.4];
    let network = FeedForward::<F>::from_draws(&[1, 1, 1], &v(&draws)).unwrap();
    let w = network.weights();
    let u = |x: f32| x * 2.0 - 1.0;
    assert_eq!(w[0], vec![v(&[u(0.1), u(0.2)]), v(&[0.0, 1.0])]);
    assert_eq!(w[1], vec![v(&[u(0.3), u(0.4)]), v(&[0.0, 1.0])]);
}

#[test]
fn from_draws_rejects_wrong_counts_and_widths() {
    assert_eq!(
        FeedForward::<F>::from_draws(&[1, 2], &v(&[0.0, 0.25, 0.5])).unwrap_err(),
        NetworkError::ShapeMismatch
    );
    assert_eq!(
        FeedForward::<F>::from_draws(&[1, 2], &v(&[0.0, 0.25, 0.5, 0.75, 0.1])).unwrap_err(),
        NetworkError::ShapeMismatch
    );
    assert_eq!(FeedForward::<F>::from_draws(&[1, 0], &v(&[])).unwrap_err(), NetworkError::InvalidLayers);
    assert_eq!(FeedForward::<F>::from_draws(&[4], &v(&[])).unwrap_err(), NetworkError::InvalidLayers);
}

#[test]
fn same_draws_give_same_network() {
    let layers = [2, 3, 2];
    let count = 3 * 3 + 2 * 4;
    let draws: Vec<F> = (0..count).map(|i| F(i as f32 / count as f32)).collect();
    let a = FeedForward::<F>::from_draws(&layers, &draws).unwrap();
    let b = FeedForward::<F>::from_draws(&layers, &draws).unwrap();
    assert_eq!(a.weights(), b.weights());
    assert_eq!(a.run(&v(&[0.3, -0.2])), b.run(&v(&[0.3, -0.2])));
}
