//! Effects of host natives.
use compiler::mir::effects::{host_effects, host_is_pure, host_may_hoist};
use compiler::mir::host_allow::{
    HostEffect, HostNative,
    CLOCK_MONO_NANOS_ID, CLOCK_SLEEP_MS_ID, MATH_SIN_ID, PACKED_DOT_ID, SIMD_AXPY_REDUCE_ID,
};

/// The natives that the tests name, in a table as long as their ids need.
fn hosts() -> Vec<HostNative> {
    let mut rows: Vec<HostNative> = (0..138)
        .map(|id| HostNative { id, name: "", arity: 0, effect: HostEffect::Host })
        .collect();
    for (id, name, arity, effect) in [
        (6, "write", 2, HostEffect::Io),
        (10, "from_bytes", 1, HostEffect::Io),
        (11, "to_bytes", 1, HostEffect::Io),
        (87, "packed_dot", 3, HostEffect::Pure),
        (88, "packed_matmul", 3, HostEffect::Pure),
        (89, "packed_matrix_zip", 3, HostEffect::Pure),
        (90, "packed_matrix_neg", 2, HostEffect::Pure),
        (91, "packed_vec_arith", 3, HostEffect::Pure),
        (100, "gc_collect", 0, HostEffect::Gc),
        (102, "math_sin", 1, HostEffect::Pure),
        (103, "math_cos", 1, HostEffect::Pure),
        (104, "math_tan", 1, HostEffect::Pure),
        (105, "math_sqrt", 1, HostEffect::Pure),
        (106, "math_exp", 1, HostEffect::Pure),
        (107, "math_ln", 1, HostEffect::Pure),
        (108, "math_floor", 1, HostEffect::Pure),
        (109, "math_ceil", 1, HostEffect::Pure),
        (110, "math_pow", 2, HostEffect::Pure),
        (111, "clock_mono_nanos", 0, HostEffect::Host),
        (112, "clock_sleep_ms", 1, HostEffect::Host),
        (125, "math_atan", 1, HostEffect::Pure),
        (126, "math_atan2", 2, HostEffect::Pure),
        (127, "math_asin", 1, HostEffect::Pure),
        (128, "math_acos", 1, HostEffect::Pure),
        (129, "math_log2", 1, HostEffect::Pure),
        (130, "math_log10", 1, HostEffect::Pure),
        (131, "math_round", 1, HostEffect::Pure),
        (132, "math_trunc", 1, HostEffect::Pure),
        (133, "math_sinh", 1, HostEffect::Pure),
        (134, "math_cosh", 1, HostEffect::Pure),
        (135, "math_tanh", 1, HostEffect::Pure),
        (136, "simd_axpy_reduce", 5, HostEffect::Pure),
        (137, "result_unit_probe", 0, HostEffect::Host),
    ] {
        rows[usize::from(id)] = HostNative { id, name, arity, effect };
    }
    rows
}

#[test]
fn math_is_pure_clocks_are_host() {
    let rows = hosts();
    assert!(host_is_pure(&rows, MATH_SIN_ID));
    assert!(host_may_hoist(&rows, MATH_SIN_ID));
    assert!(host_is_pure(&rows, SIMD_AXPY_REDUCE_ID));
    assert!(host_may_hoist(&rows, SIMD_AXPY_REDUCE_ID));
    assert!(host_is_pure(&rows, PACKED_DOT_ID));
    assert!(!host_may_hoist(&rows, PACKED_DOT_ID));
    assert!(!host_is_pure(&rows, CLOCK_MONO_NANOS_ID));
    assert!(!host_may_hoist(&rows, CLOCK_MONO_NANOS_ID));
    assert!(!host_is_pure(&rows, CLOCK_SLEEP_MS_ID));
    assert!(host_effects(&rows, CLOCK_SLEEP_MS_ID).host);
    assert!(!host_is_pure(&rows, 6)); // write
    assert!(host_effects(&rows, 6).io);
    assert!(!host_is_pure(&rows, 10)); // from_bytes
    assert!(!host_is_pure(&rows, 11)); // to_bytes
    assert!(host_effects(&rows, 10).io);
    assert!(host_effects(&rows, 11).io);
    assert!(!host_may_hoist(&rows, 10));
    assert!(!host_may_hoist(&rows, 11));
    assert!(!host_is_pure(&rows, 100)); // gc_collect
    assert!(host_effects(&rows, 100).gc);
}
