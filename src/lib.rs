mod feed_forward;
mod model;
mod network;

pub use feed_forward::{
    data_fits, draw_count, draw_offset, drawn_weights, has_shape, is_passthrough_row, layers_fit, layers_valid, lemma_passthrough_kept,
    lemma_run_depends_on_weights, lemma_same_draws_same_weights, masks_fit, matrix_view, passthrough_rows, same_bias_rows,
    shaped_like, stack_view, unit_weight, FeedForward, LEARNING_RATE_DENOMINATOR,
};
pub use model::{
    accumulate_spec, activate_spec, add_except_bias_spec, apply_spec, col_sum_spec, decode_spec,
    diff_spec, dot_spec, encode_spec, epoch_spec, epochs_spec, error_spec, example_error_spec,
    forward_spec, gradients_spec, mask_spec, mean_error_spec, reaches_target, run_spec,
    signal_spec, squared_spec, total_error_spec, trace_spec, transpose_times_spec,
};
pub use network::{Network, NetworkError, Number, TrainOutcome};
