//! Typed host calls.
use compiler::mir::effects::host_may_hoist;
use compiler::mir::host_allow::{
    allowlisted_host_ids, dense_host_ok, host_edge_spec, host_edge_spec_by_name, host_native,
    host_spec, host_spec_by_name, is_i4_bytes_host, HostEffect, HostNative, CLOCK_MONO_NANOS_ID,
    CLOCK_SLEEP_MS_ID, RESULT_UNIT_PROBE_ID,
};
use compiler::mir::MirTy;

/// The natives that the tests name, in a table as long as their ids need.
fn hosts() -> Vec<HostNative> {
    let mut rows: Vec<HostNative> = (0..138)
        .map(|id| HostNative { id, name: "", arity: 0, effect: HostEffect::Host })
        .collect();
    for (id, name, arity, effect) in [
        (6, "write", 2, HostEffect::Io),
        (10, "from_bytes", 1, HostEffect::Io),
        (11, "to_bytes", 1, HostEffect::Io),
        (87, "packed_dot", 3, HostEffect::Pure),
        (88, "packed_matmul", 3, HostEffect::Pure),
        (89, "packed_matrix_zip", 3, HostEffect::Pure),
        (90, "packed_matrix_neg", 2, HostEffect::Pure),
        (91, "packed_vec_arith", 3, HostEffect::Pure),
        (100, "gc_collect", 0, HostEffect::Gc),
        (102, "math_sin", 1, HostEffect::Pure),
        (103, "math_cos", 1, HostEffect::Pure),
        (104, "math_tan", 1, HostEffect::Pure),
        (105, "math_sqrt", 1, HostEffect::Pure),
        (106, "math_exp", 1, HostEffect::Pure),
        (107, "math_ln", 1, HostEffect::Pure),
        (108, "math_floor", 1, HostEffect::Pure),
        (109, "math_ceil", 1, HostEffect::Pure),
        (110, "math_pow", 2, HostEffect::Pure),
        (111, "clock_mono_nanos", 0, HostEffect::Host),
        (112, "clock_sleep_ms", 1, HostEffect::Host),
        (125, "math_atan", 1, HostEffect::Pure),
        (126, "math_atan2", 2, HostEffect::Pure),
        (127, "math_asin", 1, HostEffect::Pure),
        (128, "math_acos", 1, HostEffect::Pure),
        (129, "math_log2", 1, HostEffect::Pure),
        (130, "math_log10", 1, HostEffect::Pure),
        (131, "math_round", 1, HostEffect::Pure),
        (132, "math_trunc", 1, HostEffect::Pure),
        (133, "math_sinh", 1, HostEffect::Pure),
        (134, "math_cosh", 1, HostEffect::Pure),
        (135, "math_tanh", 1, HostEffect::Pure),
        (136, "simd_axpy_reduce", 5, HostEffect::Pure),
        (137, "result_unit_probe", 0, HostEffect::Host),
    ] {
        rows[usize::from(id)] = HostNative { id, name, arity, effect };
    }
    rows
}

#[test]
fn allowlist_matches_host_natives() {
    let rows = hosts();
    let ids: Vec<u16> = allowlisted_host_ids();
    assert_eq!(
        ids,
        vec![
            87, 88, 89, 90, 91, 102, 103, 104, 105, 106, 107, 108, 109, 110, 125, 126, 127,
            128, 129, 130, 131, 132, 133, 134, 135, 136
        ]
    );
    for id in ids {
        let spec = host_spec(&rows, id).expect("listed id");
        let native = host_native(&rows, id).expect("native");
        assert_eq!(spec.name, native.name);
        assert_eq!(spec.args.len(), native.arity as usize);
        assert_eq!(spec.id, id);
    }
    assert!(host_spec(&rows, CLOCK_SLEEP_MS_ID).is_none());
    assert!(host_spec(&rows, RESULT_UNIT_PROBE_ID).is_none());
    // Q9 R2: string bytes stay off W4 float specs; they are I6 word edges.
    assert!(host_spec_by_name(&rows, "from_bytes").is_none());
    assert!(host_spec_by_name(&rows, "to_bytes").is_none());
    let from = host_edge_spec_by_name(&rows, "from_bytes").expect("from_bytes I6");
    let to = host_edge_spec_by_name(&rows, "to_bytes").expect("to_bytes I6");
    assert!(dense_host_ok(&rows, from.id));
    assert!(dense_host_ok(&rows, to.id));
    assert!(is_i4_bytes_host(&rows, from.id));
    assert!(is_i4_bytes_host(&rows, to.id));
    assert_eq!(from.args, vec![MirTy::I64]);
    assert_eq!(to.args, vec![MirTy::I64]);
    assert_eq!(from.ret, MirTy::I64);
    assert_eq!(to.ret, MirTy::I64);
    let clock = host_edge_spec(&rows, CLOCK_MONO_NANOS_ID).expect("clock edge");
    assert!(clock.args.is_empty());
    assert_eq!(clock.ret, MirTy::I64);
    assert!(!host_may_hoist(&rows, CLOCK_MONO_NANOS_ID));
    assert!(host_edge_spec_by_name(&rows, "write").is_some());
}
