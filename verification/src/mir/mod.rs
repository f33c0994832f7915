//! SSA form between stack code and dense code.
pub mod abi;
pub mod arguments;
pub mod builder;
pub mod call_convoy;
pub mod count;
pub mod cse;
pub mod dense_ends;
pub mod deopt;
pub mod destprop;
pub mod dom;
pub mod effects;
pub mod emit;
pub mod emit_lir;
pub mod entry;
pub mod eval;
pub mod faithful;
pub mod folding;
pub mod forks;
pub mod forwarding;
pub mod fronts;
pub mod func;
pub mod gc;
pub mod heap;
pub mod hoisting;
pub mod host_allow;
pub mod index;
pub mod infer;
pub mod inst;
pub mod instcombine;
pub mod layout;
pub mod licm;
pub mod lower;
pub mod lowering;
pub mod mandelbrot;
pub mod moves;
pub mod pack;
pub mod regs;
pub mod rewrite;
pub mod roots;
pub mod routes;
pub mod sameness;
pub mod sealing;
pub mod specialize;
pub mod sroa;
pub mod stackmap;
pub mod string_barrier;
pub mod sums;
pub mod trees;
pub mod ty;
pub mod valid;

pub use abi::DenseCallMap;
pub use builder::{MirBuilder, MirError};
pub use cse::{cse, gvn};
pub use deopt::DraftDeoptMap;
pub use destprop::destprop;
pub use emit::emit_dense;
pub use emit_lir::emit_lir;
pub use entry::{lir_eligible, lir_refuse, LirRefuse};
pub use func::{MirBlock, MirFunc};
pub use infer::{infer_lir_with_seed, numeric_work_ops};
pub use inst::{
    BlockId, LocalId, MirAllocKind, MirBinOp, MirCastKind, MirCmpOp, MirConst, MirDeoptKind,
    MirGcKind, MirInst, MirUnaryOp, Terminator, ValueId,
};
pub use instcombine::instcombine;
pub use layout::MirLayout;
pub use licm::licm;
pub use lower::{try_lower_numeric, LowerError, LowerHints};
pub use mandelbrot::mandelbrot_inner_loop;
pub use specialize::{try_lower_abi_body, try_lower_abi_body_with, try_specialize_body};
pub use sroa::sroa;
pub use stackmap::{bind_drafts, try_build_draft, DraftFrameMap};
pub use ty::MirTy;
