use vstd::prelude::*;

verus! {

/// The scalar operations that a network's weights and activations need.
///
/// Implementations are expected to be floating-point types (single or double
/// precision). The library only combines these operations; it never inspects
/// a value itself. Each operation but `random` is a function of its
/// arguments: its spec function names the value it returns.
pub trait Number: Copy + Sized {
    /// The value that `zero` returns.
    spec fn spec_zero() -> Self;

    /// The value that `one` returns.
    spec fn spec_one() -> Self;

    /// The value that `from_usize` returns.
    spec fn spec_from_usize(n: usize) -> Self;

    /// The value that `add` returns.
    spec fn spec_add(self, other: Self) -> Self;

    /// The value that `sub` returns.
    spec fn spec_sub(self, other: Self) -> Self;

    /// The value that `mul` returns.
    spec fn spec_mul(self, other: Self) -> Self;

    /// The value that `div` returns.
    spec fn spec_div(self, other: Self) -> Self;

    /// The value that `tanh` returns.
    spec fn spec_tanh(self) -> Self;

    /// The value that `atanh` returns.
    spec fn spec_atanh(self) -> Self;

    /// The value that `le` returns.
    spec fn spec_le(self, other: Self) -> bool;

    /// The additive identity.
    fn zero() -> (r: Self)
        ensures
            r == Self::spec_zero(),
    ;

    /// The multiplicative identity.
    fn one() -> (r: Self)
        ensures
            r == Self::spec_one(),
    ;

    /// Converts a count into a scalar.
    fn from_usize(n: usize) -> (r: Self)
        ensures
            r == Self::spec_from_usize(n),
    ;

    fn add(self, other: Self) -> (r: Self)
        ensures
            r == self.spec_add(other),
    ;

    fn sub(self, other: Self) -> (r: Self)
        ensures
            r == self.spec_sub(other),
    ;

    fn mul(self, other: Self) -> (r: Self)
        ensures
            r == self.spec_mul(other),
    ;

    fn div(self, other: Self) -> (r: Self)
        ensures
            r == self.spec_div(other),
    ;

    /// Hyperbolic tangent.
    fn tanh(self) -> (r: Self)
        ensures
            r == self.spec_tanh(),
    ;

    /// Inverse hyperbolic tangent.
    fn atanh(self) -> (r: Self)
        ensures
            r == self.spec_atanh(),
    ;

    /// `self <= other`.
    fn le(self, other: Self) -> (r: bool)
        ensures
            r == self.spec_le(other),
    ;

    /// A sample drawn uniformly from `[0, 1)`.
    fn random() -> Self;
}

/// Why a network operation was refused.
#[derive(Debug, Clone, Copy, PartialEq, Eq, Structural)]
pub enum NetworkError {
    /// The layer widths have fewer than two entries or hold a zero.
    InvalidLayers,
    /// An input or target vector does not match the network's layer widths.
    ShapeMismatch,
}

/// How a bounded training run ended.
#[derive(Debug, Clone, Copy, PartialEq, Eq, Structural)]
pub enum TrainOutcome {
    /// The mean error reached the target.
    Converged,
    /// The iteration bound was reached first.
    MaxIterationsReached,
}

/// A network that maps input vectors to output vectors and learns from examples.
pub trait Network<N: Number>: Sized {
    /// The network's own invariant.
    spec fn well_formed(&self) -> bool;

    /// How many entries an input vector has.
    spec fn input_width(&self) -> nat;

    /// How many entries an output vector has.
    spec fn output_width(&self) -> nat;

    /// What the network outputs for an input of the right width.
    spec fn spec_run(&self, input: Seq<N>) -> Seq<N>;

    /// Runs the network on an input and returns the output.
    ///
    /// Inputs pass through `tanh` before the first layer; the output is the
    /// `atanh` of the last activation, so it is non-finite only where that
    /// activation reaches `-1` or `1`.
    fn run(&self, input: &[N]) -> (r: Result<Vec<N>, NetworkError>)
        requires
            self.well_formed(),
        ensures
            r is Ok <==> input@.len() == self.input_width(),
            r matches Ok(v) ==> v@.len() == self.output_width() && v@ == self.spec_run(input@),
            r matches Err(e) ==> e == NetworkError::ShapeMismatch,
    ;

    /// Trains the network until the target error or the iteration bound is
    /// reached.
    fn train(&mut self, target: N, data: Vec<(Vec<N>, Vec<N>)>) -> (r: Result<
        TrainOutcome,
        NetworkError,
    >)
        requires
            old(self).well_formed(),
        ensures
            final(self).well_formed(),
            final(self).input_width() == old(self).input_width(),
            final(self).output_width() == old(self).output_width(),
            r is Ok <==> forall|i: int|
                0 <= i < data@.len() ==> {
                    &&& (#[trigger] data@[i]).0@.len() == old(self).input_width()
                    &&& data@[i].1@.len() == old(self).output_width()
                },
            r matches Err(e) ==> e == NetworkError::ShapeMismatch && *final(self) == *old(self),
    ;
}

} // verus!
