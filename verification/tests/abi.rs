//! Signatures of dense bodies.
use compiler::idmap::IdMap;
use compiler::il::op::{DebugLoc, IlOp, Instruction, Label};
use compiler::mir::abi::{live_in_params, DenseAbi};
use compiler::mir::{MirBuilder, MirConst, MirTy};

#[test]
fn from_func_records_word_abi() {
    let mut b = MirBuilder::new("leaf", &Vec::new());
    let x = b.add_param(MirTy::F64).unwrap();
    let y = b.add_param(MirTy::I64).unwrap();
    let _ = y;
    b.set_ret_ty(MirTy::F64);
    b.ret(Some(x)).unwrap();
    let f = b.finish().unwrap();
    let abi = DenseAbi::from_func(&f).expect("word abi");
    assert_eq!(abi.params, vec![MirTy::F64, MirTy::I64]);
    assert_eq!(abi.ret, MirTy::F64);
}

#[test]
fn live_in_params_reads_prefix() {
    let loc = DebugLoc::unknown();
    let ops = vec![
        IlOp::Label(Label(0)),
        IlOp::Load { slot: 0, loc },
        IlOp::Load { slot: 1, loc },
        IlOp::Bin {
            op: Instruction::ADDF,
            loc,
        },
        IlOp::StorePop { slot: 2, loc },
        IlOp::Load { slot: 2, loc },
        IlOp::Return {
            loc,
            ret_words: 1,
        },
    ];
    let mut slot_ty = IdMap::new();
    slot_ty.insert(0, MirTy::F64);
    slot_ty.insert(1, MirTy::F64);
    slot_ty.insert(2, MirTy::F64);
    assert_eq!(
        live_in_params(&ops, &slot_ty),
        Some(vec![MirTy::F64, MirTy::F64])
    );
}

#[test]
fn live_in_params_counts_fused_return_slot() {
    let loc = DebugLoc::unknown();
    let ops = vec![
        IlOp::Label(Label(0)),
        IlOp::Load { slot: 1, loc },
        IlOp::Load { slot: 0, loc },
        IlOp::Bin {
            op: Instruction::GEQ,
            loc,
        },
        IlOp::LoadReturnSlot { slot: 2, loc },
    ];
    let mut slot_ty = IdMap::new();
    slot_ty.insert(0, MirTy::I64);
    slot_ty.insert(1, MirTy::I64);
    slot_ty.insert(2, MirTy::I64);
    assert_eq!(
        live_in_params(&ops, &slot_ty),
        Some(vec![MirTy::I64, MirTy::I64, MirTy::I64])
    );
}

#[test]
fn from_func_accepts_heapref_word() {
    let mut b = MirBuilder::new("href", &Vec::new());
    let p = b.add_param(MirTy::HeapRef).unwrap();
    b.set_ret_ty(MirTy::HeapRef);
    b.ret(Some(p)).unwrap();
    let f = b.finish().unwrap();
    let abi = DenseAbi::from_func(&f).expect("S3 HeapRef is a word lane");
    assert_eq!(abi.params, vec![MirTy::HeapRef]);
    assert_eq!(abi.ret, MirTy::HeapRef);
}

#[test]
fn from_func_accepts_niche_word() {
    let mut b = MirBuilder::new("opt", &Vec::new());
    let p = b.add_param(MirTy::NicheOpt).unwrap();
    b.set_ret_ty(MirTy::NicheOpt);
    b.ret(Some(p)).unwrap();
    let f = b.finish().unwrap();
    let abi = DenseAbi::from_func(&f).expect("Q8 niche is a word lane");
    assert_eq!(abi.params, vec![MirTy::NicheOpt]);
    assert_eq!(abi.ret, MirTy::NicheOpt);
}

#[test]
fn from_func_refuses_two_slot() {
    let mut b = MirBuilder::new("pair", &Vec::new());
    let lo = b.add_param(MirTy::I64).unwrap();
    let hi = b.ins_const(MirConst::I64(1)).unwrap();
    b.ret_pair(lo, hi).unwrap();
    let f = b.finish().unwrap();
    assert!(DenseAbi::from_func(&f).is_none());
}
