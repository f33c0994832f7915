//! Debugger edges.
use compiler::il::op::{DebugLoc, IlOp, Label};
use compiler::mir::deopt::{boundary_for_op, debug_slot_remap, encode_draft};
use compiler::mir::func::DeoptSite;
use compiler::mir::{LocalId, MirDeoptKind, MirFunc, MirInst, MirTy, ValueId};

fn loc() -> DebugLoc {
    DebugLoc {
        file: 0,
        start_byte: 0,
        end_byte: 4,
    }
}

#[test]
fn implicit_call_and_explicit_stop() {
    let call = MirInst::Call {
        dest: ValueId(0),
        dest_hi: None,
        target: Label(1),
        args: Vec::new(),
    };
    assert_eq!(call.deopt_kind(&Vec::new()), Some(MirDeoptKind::Deopt));
    let stop = MirInst::Deopt {
        dest: ValueId(1),
        kind: MirDeoptKind::Stop,
        loc: loc(),
    };
    assert!(stop.is_deopt_edge());
    assert_eq!(stop.deopt_kind(&Vec::new()), Some(MirDeoptKind::Stop));
    assert!(
        boundary_for_op(&IlOp::Return {
            loc: loc(),
            ret_words: 1
        })
        .is_some()
    );
    assert!(
        boundary_for_op(&IlOp::Const {
            imm: 1,
            loc: loc()
        })
        .is_none()
    );
}

#[test]
fn encode_draft_maps_param_slot() {
    let mut func = MirFunc::new("hot", &Vec::new());
    func.params.push(ValueId(0));
    func.types.push(MirTy::I64);
    func.debug_slots.insert(0, ValueId(0));
    func.deopt_sites.push(DeoptSite {
        kind: MirDeoptKind::Stop,
        at: None,
        loc: loc(),
        slots: vec![(LocalId(0), ValueId(0))],
    });
    let regs = vec![0u8];
    let need = vec![true];
    let draft = encode_draft(&func, &regs, &need);
    assert!(draft.complete);
    assert_eq!(draft.sites.len(), 1);
    assert_eq!(draft.sites[0].il_slots, vec![0]);
    assert_eq!(draft.sites[0].regs, vec![0]);
    let remap = debug_slot_remap(&func, &regs, &need);
    assert_eq!(remap.get(&0), Some(&0));
}
