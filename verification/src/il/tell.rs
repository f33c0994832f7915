//! The cursor that locals and operands share.
//!
//! Locals and the operand stack live in one buffer. The cursor marks its end: a store to `slot`
//! raises it to at least `slot + 1`, whatever the operand height. It is not a constant of a
//! position: a loop whose body stores to a higher slot reaches its head with two cursors, and
//! nothing is known there.
use vstd::prelude::*;
use vstd::string::*;
use super::flow::{
    analyze_cfg, applied, apply, pass_from, seeded, settled, shifted, solution, told, visited, Effect,
    Site, Tell,
};
use super::op::{Byte, DebugLoc, EntryKind, IlOp, Instruction, Label, Operand};
use super::sp::{
    byte_delta, byte_stack_delta, byte_stops, clamp, clamped, delta_effect, effect_of_delta,
    find_indirect_arity, find_jump_effects, il_is_unconditional_transfer, il_jump_target,
    indirect_arity, is_unconditional_transfer, jump_effects, op_delta, op_stops, op_target,
    stack_delta,
};
use crate::scan::texts;
use crate::text::{cat6, dec, dec_str};

verus! {

/// Cursor before each position.
#[derive(Clone, Debug)]
pub struct TellInfo {
    pub tell_in: Vec<Tell>,
}

/// Cursor at `i`; nothing known out of range.
pub open spec fn tell_at(s: Seq<Tell>, i: int) -> Tell {
    if 0 <= i < s.len() {
        s[i]
    } else {
        Tell::Unknown
    }
}

/// `n + 1`, kept within range.
pub open spec fn above(n: u32) -> u32 {
    if n == u32::MAX {
        u32::MAX
    } else {
        (n + 1) as u32
    }
}

fn one_above(n: u32) -> (r: u32)
    ensures
        r == above(n),
{
    if n == u32::MAX {
        u32::MAX
    } else {
        n + 1
    }
}

impl TellInfo {
    /// Cursor before position `pc`.
    pub fn tell_before(&self, pc: usize) -> (r: Tell)
        ensures
            r == tell_at(self.tell_in@, pc as int),
    {
        if pc < self.tell_in.len() {
            self.tell_in[pc]
        } else {
            Tell::Unknown
        }
    }

    /// Whether a producer of one value at `producer_idx` and a store of it to `slot` behind it
    /// leave the cursor where it was, so that both can go.
    pub fn can_remove_one_value_store(&self, producer_idx: usize, slot: u32) -> (r: bool)
        ensures
            r == (match tell_at(self.tell_in@, producer_idx as int) {
                Tell::Known(before) => applied(
                    Tell::Known(above(before)),
                    Effect::DeltaThenFloor(-1i32, above(slot)),
                ) == Some(Tell::Known(before)),
                Tell::Unknown => false,
            }),
    {
        match self.tell_before(producer_idx) {
            Tell::Known(before) => {
                let after = apply(
                    Tell::Known(one_above(before)),
                    Effect::DeltaThenFloor(-1, one_above(slot)),
                );
                after == Some(Tell::Known(before))
            },
            Tell::Unknown => false,
        }
    }
}

/// A store pair goes exactly when the cursor stands above its slot already.
pub proof fn removable_stores_lie_below_the_cursor(before: u32, slot: u32)
    requires
        before < u32::MAX,
        slot < u32::MAX,
    ensures
        (applied(Tell::Known(above(before)), Effect::DeltaThenFloor(-1i32, above(slot))) == Some(
            Tell::Known(before),
        )) == (slot < before),
{
}

/// The highest of the first `n` slots of a store.
pub open spec fn highest_slot(b: Byte, n: int) -> u32
    decreases n,
{
    if n <= 0 {
        0
    } else if b.slot_at(n - 1) > highest_slot(b, n - 1) {
        b.slot_at(n - 1)
    } else {
        highest_slot(b, n - 1)
    }
}

/// Pool index of the part of a fused instruction that sits in the pool.
pub open spec fn pool_index(b: Byte) -> u32 {
    match b.arg {
        Operand::Pooled { idx, .. } => idx,
        _ => 0,
    }
}

fn find_pool_index(b: &Byte) -> (r: u32)
    ensures
        r == pool_index(*b),
{
    match b.arg {
        Operand::Pooled { idx, .. } => idx,
        _ => 0,
    }
}

/// High half of a pool entry.
pub open spec fn high_half(pool: Seq<u64>, idx: u32) -> Option<u32> {
    if idx < pool.len() {
        Some((pool[idx as int] / 0x1_0000_0000) as u32)
    } else {
        None
    }
}

fn find_high_half(pool: &[u64], idx: u32) -> (r: Option<u32>)
    ensures
        r == high_half(pool@, idx),
{
    if (idx as usize) < pool.len() {
        Some((pool[idx as usize] / 0x1_0000_0000) as u32)
    } else {
        None
    }
}

/// Destination slot of a fused store.
pub open spec fn store_dest(b: Byte) -> u8 {
    match b.arg {
        Operand::SlotSlot { dest, .. } => dest,
        _ => 0,
    }
}

pub(crate) fn find_store_dest(b: &Byte) -> (r: u8)
    ensures
        r == store_dest(*b),
{
    match b.arg {
        Operand::SlotSlot { dest, .. } => dest,
        _ => 0,
    }
}

/// How an instruction moves the cursor.
pub open spec fn byte_effect(b: Byte, pool: Seq<u64>) -> Effect {
    match b.inst {
        Instruction::Seek => Effect::SetTo(b.word()),
        Instruction::STORE | Instruction::StorePop => Effect::DeltaThenFloor(
            (-(b.slot_count() as int)) as i32,
            above(highest_slot(b, b.slot_count() as int)),
        ),
        Instruction::BinSlotSlotStore => Effect::DeltaThenFloor(0, (store_dest(b) + 1) as u32),
        Instruction::BinSlotImmStore => match high_half(pool, pool_index(b)) {
            Some(dest) => Effect::DeltaThenFloor(0, above(dest)),
            None => Effect::Unknown,
        },
        Instruction::Unpack => Effect::Delta((clamped(b.word()) - 1) as i32),
        Instruction::RETURN
        | Instruction::HALT
        | Instruction::LoadReturnSlot
        | Instruction::ConstReturnImm
        | Instruction::BinReturn
        | Instruction::ReturnPair
        | Instruction::TailCall => Effect::Terminator,
        _ => delta_effect(byte_delta(b)),
    }
}

fn effect(b: &Byte, pool: &[u64]) -> (r: Effect)
    ensures
        r == byte_effect(*b, pool@),
{
    match b.inst {
        Instruction::Seek => Effect::SetTo(b.operand_u32()),
        Instruction::STORE | Instruction::StorePop => {
            let n = b.load_store_count();
            let mut max_slot: u32 = 0;
            let mut i: u32 = 0;
            while i < n
                invariant
                    i <= n,
                    max_slot == highest_slot(*b, i as int),
                decreases n - i,
            {
                let s = b.load_store_slot_at(i);
                if s > max_slot {
                    max_slot = s;
                }
                i += 1;
            }
            Effect::DeltaThenFloor(0 - n as i32, one_above(max_slot))
        },
        Instruction::BinSlotSlotStore => Effect::DeltaThenFloor(0, find_store_dest(b) as u32 + 1),
        Instruction::BinSlotImmStore => match find_high_half(pool, find_pool_index(b)) {
            Some(dest) => Effect::DeltaThenFloor(0, one_above(dest)),
            None => Effect::Unknown,
        },
        Instruction::Unpack => Effect::Delta(clamp(b.operand_u32()) - 1),
        Instruction::RETURN
        | Instruction::HALT
        | Instruction::LoadReturnSlot
        | Instruction::ConstReturnImm
        | Instruction::BinReturn
        | Instruction::ReturnPair
        | Instruction::TailCall => Effect::Terminator,
        _ => effect_of_delta(byte_stack_delta(b)),
    }
}

/// What a call adds: its results minus its arguments.
pub open spec fn call_delta(arity: u32, pair: bool) -> i32 {
    ((if pair {
        2int
    } else {
        1int
    }) - clamped(arity)) as i32
}

/// What a call adds: one result, or two for a pair, minus its arguments.
pub fn call_result_delta(arity: u32, pair_return: bool) -> (r: i32)
    ensures
        r == call_delta(arity, pair_return),
{
    let results: i32 = if pair_return {
        2
    } else {
        1
    };
    results - clamp(arity)
}

/// What a matched tag adds: its payload minus the scrutinee.
pub fn signed_arity_delta(arity: u32) -> (r: i32)
    ensures
        r == clamped(arity) - 1,
{
    clamp(arity) - 1
}

/// Whether the next instruction boxes a returned pair.
pub open spec fn boxes_pair(next: Option<Byte>) -> bool {
    next is Some && (next->0).inst == Instruction::PairToHeap
}

/// How an instruction moves the cursor along its fall-through and its branch. The payload of a
/// matched tag is known only at run time.
pub open spec fn byte_effects(b: Byte, next: Option<Byte>, pool: Seq<u64>) -> (Effect, Effect) {
    match b.inst {
        Instruction::JumpIfMatch => (Effect::Delta(0), Effect::Unknown),
        Instruction::PairJumpIfTag => (Effect::Delta(0), Effect::Delta(-1i32)),
        Instruction::CALL => {
            let e = Effect::Delta(call_delta(b.call().0, b.call_words() >= 2 || boxes_pair(next)));
            (e, e)
        },
        Instruction::CallIndirect => if boxes_pair(next) {
            let e = Effect::Delta(call_delta(indirect_arity(b), true));
            (e, e)
        } else {
            (byte_effect(b, pool), byte_effect(b, pool))
        },
        _ => (byte_effect(b, pool), byte_effect(b, pool)),
    }
}

fn next_is_pair_to_heap(next: Option<Byte>) -> (r: bool)
    ensures
        r == boxes_pair(next),
{
    match next {
        Some(b) => b.inst == Instruction::PairToHeap,
        None => false,
    }
}

fn edge_effects_with_next(b: &Byte, next: Option<Byte>, pool: &[u64]) -> (r: (Effect, Effect))
    ensures
        r == byte_effects(*b, next, pool@),
{
    match b.inst {
        Instruction::JumpIfMatch => (Effect::Delta(0), Effect::Unknown),
        Instruction::PairJumpIfTag => (Effect::Delta(0), Effect::Delta(-1)),
        Instruction::CALL => {
            let pair = b.call_ret_words() >= 2 || next_is_pair_to_heap(next);
            let e = Effect::Delta(call_result_delta(b.call_parts().0, pair));
            (e, e)
        },
        Instruction::CallIndirect => if next_is_pair_to_heap(next) {
            let e = Effect::Delta(call_result_delta(find_indirect_arity(b), true));
            (e, e)
        } else {
            let e = effect(b, pool);
            (e, e)
        },
        _ => {
            let e = effect(b, pool);
            (e, e)
        },
    }
}

/// Whether the effect of an instruction is modelled along both of its edges.
pub fn is_modelled(b: &Byte, pool: &[u64]) -> (r: bool)
    ensures
        r == (byte_effects(*b, None, pool@).0 != Effect::Unknown && byte_effects(
            *b,
            None,
            pool@,
        ).1 != Effect::Unknown),
{
    let (fall, branch) = edge_effects_with_next(b, None, pool);
    fall != Effect::Unknown && branch != Effect::Unknown
}

/// A pool entry as a position.
pub open spec fn pool_pc(pool: Seq<u64>, idx: int) -> Option<usize> {
    if 0 <= idx < pool.len() {
        Some(pool[idx] as usize)
    } else {
        None
    }
}

fn find_pool_pc(pool: &[u64], idx: usize) -> (r: Option<usize>)
    ensures
        r == pool_pc(pool@, idx as int),
{
    if idx < pool.len() {
        Some(pool[idx] as usize)
    } else {
        None
    }
}

/// Where a jump goes, for the forms that carry a target. Fused compares carry it, or the index
/// of a pool entry; fused slot operations keep it in the high half of their pool entry.
pub open spec fn byte_target(b: Byte, pool: Seq<u64>) -> Option<usize> {
    match b.inst {
        Instruction::JMP | Instruction::JMPF | Instruction::JMPT => Some(b.word() as usize),
        Instruction::CmpJmpf
        | Instruction::CmpJmpt
        | Instruction::LogNotJmpf
        | Instruction::LogNotJmpt => match b.arg {
            Operand::Target { at, pool: pooled } => if pooled {
                pool_pc(pool, at as int)
            } else {
                Some(at as usize)
            },
            _ => None,
        },
        Instruction::BinSlotImmJmpf
        | Instruction::BinSlotImmJmpt
        | Instruction::BinSlotSlotJmpf
        | Instruction::BinSlotSlotJmpt
        | Instruction::BinSlotSlotConstJmpf
        | Instruction::BinSlotSlotConstJmpt => match high_half(pool, pool_index(b)) {
            Some(t) => Some(t as usize),
            None => None,
        },
        Instruction::JumpIfMatch | Instruction::PairJumpIfTag => match b.arg {
            Operand::Match { idx, .. } => pool_pc(pool, idx as int),
            _ => None,
        },
        _ => None,
    }
}

fn jump_target(b: &Byte, pool: &[u64]) -> (r: Option<usize>)
    ensures
        r == byte_target(*b, pool@),
{
    match b.inst {
        Instruction::JMP | Instruction::JMPF | Instruction::JMPT => Some(b.operand_u32() as usize),
        Instruction::CmpJmpf
        | Instruction::CmpJmpt
        | Instruction::LogNotJmpf
        | Instruction::LogNotJmpt => match b.arg {
            Operand::Target { at, pool: pooled } => if pooled {
                find_pool_pc(pool, at as usize)
            } else {
                Some(at as usize)
            },
            _ => None,
        },
        Instruction::BinSlotImmJmpf
        | Instruction::BinSlotImmJmpt
        | Instruction::BinSlotSlotJmpf
        | Instruction::BinSlotSlotJmpt
        | Instruction::BinSlotSlotConstJmpf
        | Instruction::BinSlotSlotConstJmpt => match find_high_half(pool, find_pool_index(b)) {
            Some(t) => Some(t as usize),
            None => None,
        },
        Instruction::JumpIfMatch | Instruction::PairJumpIfTag => match b.arg {
            Operand::Match { idx, .. } => find_pool_pc(pool, idx as usize),
            _ => None,
        },
        _ => None,
    }
}

/// The cursor problem of `code`.
pub open spec fn code_sites(code: Seq<Byte>, pool: Seq<u64>) -> Seq<Site> {
    Seq::new(
        code.len(),
        |i: int|
            {
                let next = if i + 1 < code.len() {
                    Some(code[i + 1])
                } else {
                    None
                };
                Site {
                    fall: byte_effects(code[i], next, pool).0,
                    branch: byte_effects(code[i], next, pool).1,
                    target: byte_target(code[i], pool),
                    stops: byte_stops(code[i]),
                }
            },
    )
}

/// Cursor before each instruction, from `entry_tell` at `entry` on. A function begins with its
/// arguments in its first slots.
pub fn analyze_at(code: &[Byte], pool: &[u64], entry: usize, entry_tell: u32) -> (r: TellInfo)
    ensures
        r.tell_in@ == told(code_sites(code@, pool@), entry as int, entry_tell),
{
    let n = code.len();
    let mut sites: Vec<Site> = Vec::new();
    let mut i: usize = 0;
    while i < n
        invariant
            i <= n,
            n == code@.len(),
            sites@.len() == i,
            forall|k: int| 0 <= k < i ==> #[trigger] sites@[k] == code_sites(code@, pool@)[k],
        decreases n - i,
    {
        let next = if i < n - 1 {
            Some(code[i + 1])
        } else {
            None
        };
        let (fall, branch) = edge_effects_with_next(&code[i], next, pool);
        sites.push(
            Site {
                fall,
                branch,
                target: jump_target(&code[i], pool),
                stops: is_unconditional_transfer(&code[i]),
            },
        );
        i += 1;
    }
    assert(sites@ =~= code_sites(code@, pool@));
    TellInfo { tell_in: analyze_cfg(&sites, entry, entry_tell) }
}

/// The next operation from `i` on that is no label.
pub open spec fn next_op(ops: Seq<IlOp>, i: int) -> Option<IlOp>
    decreases ops.len() - i,
{
    if i >= ops.len() {
        None
    } else if ops[i] is Label {
        next_op(ops, i + 1)
    } else {
        Some(ops[i])
    }
}

/// The instruction that an operation is.
pub open spec fn plain_byte(op: Option<IlOp>) -> Option<Byte> {
    match op {
        Some(IlOp::Byte { byte, .. }) => Some(byte),
        _ => None,
    }
}

/// How an operation moves the cursor along its two edges, without a constant pool.
pub open spec fn op_effects(op: IlOp, next: Option<IlOp>) -> (Effect, Effect) {
    match op {
        IlOp::Jump { kind, .. } => jump_effects(kind),
        IlOp::Byte { byte, .. } => byte_effects(byte, plain_byte(next), Seq::empty()),
        IlOp::Entry { kind, arity, ret_words, .. } => {
            let e = match kind {
                EntryKind::Call => Effect::Delta(
                    call_delta(arity, ret_words >= 2 || boxes_pair(plain_byte(next))),
                ),
                EntryKind::MakeCoro => Effect::Delta(call_delta(arity, ret_words >= 2)),
                EntryKind::TailCall => Effect::Terminator,
                EntryKind::CodePtr | EntryKind::MakePolyFn => Effect::Delta(1),
            };
            (e, e)
        },
        IlOp::StorePop { slot, .. } => (
            Effect::DeltaThenFloor(-1i32, above(slot)),
            Effect::DeltaThenFloor(-1i32, above(slot)),
        ),
        IlOp::PrologueJmp { .. } => (Effect::Terminator, Effect::Terminator),
        _ => (delta_effect(op_delta(op)), delta_effect(op_delta(op))),
    }
}

fn next_plain_byte(ops: &[IlOp], from: usize) -> (r: Option<Byte>)
    requires
        from <= ops@.len(),
    ensures
        r == plain_byte(next_op(ops@, from as int)),
{
    let mut i: usize = from;
    while i < ops.len()
        invariant
            from <= i <= ops@.len(),
            next_op(ops@, from as int) == next_op(ops@, i as int),
        decreases ops@.len() - i,
    {
        match &ops[i] {
            IlOp::Label(_) => {},
            IlOp::Byte { byte, .. } => return Some(*byte),
            _ => return None,
        }
        i += 1;
    }
    None
}

fn edge_effects_il(ops: &[IlOp], i: usize) -> (r: (Effect, Effect))
    requires
        i < ops@.len(),
    ensures
        r == op_effects(ops@[i as int], next_op(ops@, i + 1)),
{
    let n = ops.len();
    assert(i < n);
    let next = next_plain_byte(ops, i + 1);
    match &ops[i] {
        IlOp::Jump { kind, .. } => find_jump_effects(kind),
        IlOp::Byte { byte, .. } => {
            let pool: Vec<u64> = Vec::new();
            assert(pool@ =~= Seq::empty());
            edge_effects_with_next(byte, next, pool.as_slice())
        },
        IlOp::Entry { kind, arity, ret_words, .. } => {
            let e = match kind {
                EntryKind::Call => Effect::Delta(
                    call_result_delta(*arity, *ret_words >= 2 || next_is_pair_to_heap(next)),
                ),
                EntryKind::MakeCoro => Effect::Delta(call_result_delta(*arity, *ret_words >= 2)),
                EntryKind::TailCall => Effect::Terminator,
                EntryKind::CodePtr | EntryKind::MakePolyFn => Effect::Delta(1),
            };
            (e, e)
        },
        IlOp::StorePop { slot, .. } => {
            let e = Effect::DeltaThenFloor(-1, one_above(*slot));
            (e, e)
        },
        IlOp::PrologueJmp { .. } => (Effect::Terminator, Effect::Terminator),
        _ => {
            let e = effect_of_delta(stack_delta(&ops[i]));
            (e, e)
        },
    }
}

/// The cursor problem of `ops`.
pub open spec fn op_sites(ops: Seq<IlOp>) -> Seq<Site> {
    Seq::new(
        ops.len(),
        |i: int|
            Site {
                fall: op_effects(ops[i], next_op(ops, i + 1)).0,
                branch: op_effects(ops[i], next_op(ops, i + 1)).1,
                target: op_target(ops, ops[i]),
                stops: op_stops(ops[i]),
            },
    )
}

/// Cursor before each operation, from `entry_tell` at the first one on. Labels make the targets
/// exact before positions are assigned.
pub fn analyze_il_at(ops: &[IlOp], entry_tell: u32) -> (r: TellInfo)
    ensures
        r.tell_in@ == told(op_sites(ops@), 0, entry_tell),
{
    let n = ops.len();
    let mut sites: Vec<Site> = Vec::new();
    let mut i: usize = 0;
    while i < n
        invariant
            i <= n,
            n == ops@.len(),
            sites@.len() == i,
            forall|k: int| 0 <= k < i ==> #[trigger] sites@[k] == op_sites(ops@)[k],
        decreases n - i,
    {
        let (fall, branch) = edge_effects_il(ops, i);
        sites.push(
            Site {
                fall,
                branch,
                target: il_jump_target(ops, &ops[i]),
                stops: il_is_unconditional_transfer(&ops[i]),
            },
        );
        i += 1;
    }
    assert(sites@ =~= op_sites(ops@));
    TellInfo { tell_in: analyze_cfg(&sites, 0, entry_tell) }
}


/// The outcome of comparing the cursors of operations with those of the instructions that they
/// became.
#[derive(Clone, Debug)]
pub struct IlTellDiff {
    /// Operations compared.
    pub checked: usize,
    /// Of those, operations whose cursor is known.
    pub known: usize,
    /// The first disagreements.
    pub mismatches: Vec<String>,
    pub saw_call: bool,
    pub saw_store: bool,
}

/// The outcome of a comparison, with its messages as text.
#[verifier::ext_equal]
pub ghost struct DiffV {
    pub checked: usize,
    pub known: usize,
    pub mismatches: Seq<Seq<char>>,
    pub saw_call: bool,
    pub saw_store: bool,
}

impl View for IlTellDiff {
    type V = DiffV;

    open spec fn view(&self) -> DiffV {
        DiffV {
            checked: self.checked,
            known: self.known,
            mismatches: texts(self.mismatches@),
            saw_call: self.saw_call,
            saw_store: self.saw_store,
        }
    }
}

/// Nothing compared.
pub open spec fn no_diff() -> DiffV {
    DiffV { checked: 0, known: 0, mismatches: Seq::empty(), saw_call: false, saw_store: false }
}

impl Default for IlTellDiff {
    fn default() -> (r: Self)
        ensures
            r@ == no_diff(),
    {
        let r = IlTellDiff {
            checked: 0,
            known: 0,
            mismatches: Vec::new(),
            saw_call: false,
            saw_store: false,
        };
        assert(r@ =~= no_diff());
        r
    }
}

/// Counts one more, up to the largest number.
pub open spec fn counted(n: usize) -> usize {
    if n == usize::MAX {
        n
    } else {
        (n + 1) as usize
    }
}

fn count(n: usize) -> (r: usize)
    ensures
        r == counted(n),
{
    if n == usize::MAX {
        n
    } else {
        n + 1
    }
}

/// Name of an operation in a message.
pub open spec fn op_tag(op: IlOp) -> Seq<char> {
    match op {
        IlOp::Entry { kind: EntryKind::Call, .. } => "Entry{Call}"@,
        IlOp::Entry { kind: EntryKind::MakeCoro, .. } => "Entry{MakeCoro}"@,
        IlOp::Entry { kind: EntryKind::TailCall, .. } => "Entry{TailCall}"@,
        IlOp::StorePop { .. } => "StorePop"@,
        IlOp::Load { .. } => "Load"@,
        IlOp::Const { .. } | IlOp::ConstPool { .. } => "Const"@,
        IlOp::Jump { .. } => "Jump"@,
        IlOp::Return { .. } => "Return"@,
        IlOp::Byte { .. } => "Byte"@,
        _ => "op"@,
    }
}

fn il_op_tag(op: &IlOp) -> (r: &'static str)
    ensures
        r@ == op_tag(*op),
{
    match op {
        IlOp::Entry { kind: EntryKind::Call, .. } => "Entry{Call}",
        IlOp::Entry { kind: EntryKind::MakeCoro, .. } => "Entry{MakeCoro}",
        IlOp::Entry { kind: EntryKind::TailCall, .. } => "Entry{TailCall}",
        IlOp::StorePop { .. } => "StorePop",
        IlOp::Load { .. } => "Load",
        IlOp::Const { .. } | IlOp::ConstPool { .. } => "Const",
        IlOp::Jump { .. } => "Jump",
        IlOp::Return { .. } => "Return",
        IlOp::Byte { .. } => "Byte",
        _ => "op",
    }
}

/// Number of instructions among the first `n` operations.
pub open spec fn emit_index(ops: Seq<IlOp>, n: int) -> nat
    decreases n,
{
    if n <= 0 {
        0
    } else {
        emit_index(ops, n - 1) + (if ops[n - 1].emits() {
            1nat
        } else {
            0nat
        })
    }
}

/// Position of the instruction that operation `raw` became.
pub open spec fn pc_of(ops: Seq<IlOp>, post: Seq<Option<usize>>, raw: int) -> Option<usize> {
    if ops[raw].emits() && emit_index(ops, raw) < post.len() {
        post[emit_index(ops, raw) as int]
    } else {
        None
    }
}

/// Whether operation `raw` became an instruction of `s..e`.
pub open spec fn lands_in(
    ops: Seq<IlOp>,
    post: Seq<Option<usize>>,
    raw: int,
    s: usize,
    e: usize,
) -> bool {
    match pc_of(ops, post, raw) {
        Some(pc) => s <= pc < e,
        None => false,
    }
}

/// The first operation from `i` on that became an instruction of `s..e`.
pub open spec fn first_landing(
    ops: Seq<IlOp>,
    post: Seq<Option<usize>>,
    s: usize,
    e: usize,
    i: int,
) -> Option<int>
    decreases ops.len() - i,
{
    if i >= ops.len() {
        None
    } else if lands_in(ops, post, i, s, e) {
        Some(i)
    } else {
        first_landing(ops, post, s, e, i + 1)
    }
}

/// The last of the first `n` operations that became an instruction of `s..e`.
pub open spec fn last_landing(
    ops: Seq<IlOp>,
    post: Seq<Option<usize>>,
    s: usize,
    e: usize,
    n: int,
) -> Option<int>
    decreases n,
{
    if n <= 0 {
        None
    } else if lands_in(ops, post, n - 1, s, e) {
        Some(n - 1)
    } else {
        last_landing(ops, post, s, e, n - 1)
    }
}

/// `i` moved to the front of the labels before it.
pub open spec fn label_front(ops: Seq<IlOp>, i: int) -> int
    decreases i,
{
    if i > 0 && !ops[i - 1].emits() {
        label_front(ops, i - 1)
    } else {
        i
    }
}

/// `i` moved behind the labels at it.
pub open spec fn label_back(ops: Seq<IlOp>, i: int) -> int
    decreases ops.len() - i,
{
    if i < ops.len() && !ops[i].emits() {
        label_back(ops, i + 1)
    } else {
        i
    }
}

/// The operations of the function whose instructions are `s..e`, with the labels around them.
pub open spec fn raw_range(ops: Seq<IlOp>, post: Seq<Option<usize>>, s: usize, e: usize) -> Option<
    (int, int),
> {
    match (first_landing(ops, post, s, e, 0), last_landing(ops, post, s, e, ops.len() as int)) {
        (Some(a), Some(b)) => Some((label_front(ops, a), label_back(ops, b + 1))),
        _ => None,
    }
}

/// The range of a function is a range of operations.
pub proof fn raw_range_is_in_order(
    ops: Seq<IlOp>,
    post: Seq<Option<usize>>,
    s: usize,
    e: usize,
)
    ensures
        raw_range(ops, post, s, e) matches Some(r) ==> 0 <= r.0 < r.1 <= ops.len(),
{
    first_lands(ops, post, s, e, 0);
    last_lands(ops, post, s, e, ops.len() as int);
    if let (Some(a), Some(b)) = (
        first_landing(ops, post, s, e, 0),
        last_landing(ops, post, s, e, ops.len() as int),
    ) {
        front_in_order(ops, a);
        back_in_order(ops, b + 1);
    }
}

proof fn first_lands(ops: Seq<IlOp>, post: Seq<Option<usize>>, s: usize, e: usize, i: int)
    requires
        0 <= i,
    ensures
        match first_landing(ops, post, s, e, i) {
            Some(a) => i <= a < ops.len() && lands_in(ops, post, a, s, e) && forall|k: int|
                i <= k < a ==> !#[trigger] lands_in(ops, post, k, s, e),
            None => forall|k: int| i <= k < ops.len() ==> !#[trigger] lands_in(ops, post, k, s, e),
        },
    decreases ops.len() - i,
{
    if i < ops.len() {
        first_lands(ops, post, s, e, i + 1);
    }
}

proof fn last_lands(ops: Seq<IlOp>, post: Seq<Option<usize>>, s: usize, e: usize, n: int)
    requires
        n <= ops.len(),
    ensures
        match last_landing(ops, post, s, e, n) {
            Some(b) => 0 <= b < n && lands_in(ops, post, b, s, e) && forall|k: int|
                b < k < n ==> !#[trigger] lands_in(ops, post, k, s, e),
            None => forall|k: int| 0 <= k < n ==> !#[trigger] lands_in(ops, post, k, s, e),
        },
    decreases n,
{
    if n > 0 {
        last_lands(ops, post, s, e, n - 1);
    }
}

proof fn front_in_order(ops: Seq<IlOp>, i: int)
    requires
        0 <= i <= ops.len(),
    ensures
        0 <= label_front(ops, i) <= i,
    decreases i,
{
    if i > 0 && !ops[i - 1].emits() {
        front_in_order(ops, i - 1);
    }
}

proof fn back_in_order(ops: Seq<IlOp>, i: int)
    requires
        0 <= i <= ops.len(),
    ensures
        i <= label_back(ops, i) <= ops.len(),
    decreases ops.len() - i,
{
    if i < ops.len() && !ops[i].emits() {
        back_in_order(ops, i + 1);
    }
}

/// Positions of the instructions that the operations became.
pub open spec fn landings(ops: Seq<IlOp>, post: Seq<Option<usize>>) -> Seq<Option<usize>> {
    Seq::new(ops.len(), |i: int| pc_of(ops, post, i))
}

fn find_landings(ops: &[IlOp], post: &Vec<Option<usize>>) -> (r: Vec<Option<usize>>)
    ensures
        r@ == landings(ops@, post@),
{
    let mut r: Vec<Option<usize>> = Vec::new();
    let mut emitting: usize = 0;
    let mut i: usize = 0;
    while i < ops.len()
        invariant
            i <= ops@.len(),
            emitting <= i,
            emitting == emit_index(ops@, i as int),
            r@.len() == i,
            forall|k: int| 0 <= k < i ==> #[trigger] r@[k] == pc_of(ops@, post@, k),
        decreases ops@.len() - i,
    {
        if ops[i].emits_code() {
            r.push(
                if emitting < post.len() {
                    post[emitting]
                } else {
                    None
                },
            );
            emitting += 1;
        } else {
            r.push(None);
        }
        i += 1;
    }
    assert(r@ =~= landings(ops@, post@));
    r
}

fn inside(pc: Option<usize>, s: usize, e: usize) -> (r: bool)
    ensures
        r == (match pc {
            Some(p) => s <= p < e,
            None => false,
        }),
{
    match pc {
        Some(p) => s <= p && p < e,
        None => false,
    }
}

/// The operations of the function whose instructions are `bc_start..bc_end`, with the labels
/// around them so that the jumps inside still resolve. `pre_to_post` holds the position of each
/// instruction by its number among the operations.
pub fn il_fn_raw_range(
    ops: &[IlOp],
    pre_to_post: &Vec<Option<usize>>,
    bc_start: usize,
    bc_end: usize,
) -> (r: Option<(usize, usize)>)
    ensures
        match r {
            Some(p) => raw_range(ops@, pre_to_post@, bc_start, bc_end) == Some(
                (p.0 as int, p.1 as int),
            ),
            None => raw_range(ops@, pre_to_post@, bc_start, bc_end) is None,
        },
        r matches Some(p) ==> p.0 < p.1 <= ops@.len(),
{
    let ghost post = pre_to_post@;
    let n = ops.len();
    let pcs = find_landings(ops, pre_to_post);
    proof {
        raw_range_is_in_order(ops@, post, bc_start, bc_end);
        last_lands(ops@, post, bc_start, bc_end, n as int);
    }
    let mut a: usize = 0;
    while a < n && !inside(pcs[a], bc_start, bc_end)
        invariant
            a <= n,
            n == ops@.len(),
            pcs@ == landings(ops@, post),
            first_landing(ops@, post, bc_start, bc_end, 0) == first_landing(
                ops@,
                post,
                bc_start,
                bc_end,
                a as int,
            ),
            forall|k: int| 0 <= k < a ==> !#[trigger] lands_in(ops@, post, k, bc_start, bc_end),
        decreases n - a,
    {
        assert(pcs@[a as int] == pc_of(ops@, post, a as int));
        a += 1;
    }
    if a >= n {
        return None;
    }
    assert(pcs@[a as int] == pc_of(ops@, post, a as int));
    assert(lands_in(ops@, post, a as int, bc_start, bc_end));
    let mut b: usize = n;
    while b > 0 && !inside(pcs[b - 1], bc_start, bc_end)
        invariant
            b <= n,
            n == ops@.len(),
            pcs@ == landings(ops@, post),
            last_landing(ops@, post, bc_start, bc_end, n as int) == last_landing(
                ops@,
                post,
                bc_start,
                bc_end,
                b as int,
            ),
            forall|k: int| b <= k < n ==> !#[trigger] lands_in(ops@, post, k, bc_start, bc_end),
        decreases b,
    {
        assert(pcs@[b - 1] == pc_of(ops@, post, b - 1));
        b -= 1;
    }
    assert(b > a);
    assert(pcs@[b - 1] == pc_of(ops@, post, b - 1));
    let mut start: usize = a;
    while start > 0 && !ops[start - 1].emits_code()
        invariant
            start <= a < n,
            n == ops@.len(),
            label_front(ops@, a as int) == label_front(ops@, start as int),
        decreases start,
    {
        start -= 1;
    }
    let mut end: usize = b;
    while end < n && !ops[end].emits_code()
        invariant
            b <= end <= n,
            n == ops@.len(),
            label_back(ops@, b as int) == label_back(ops@, end as int),
        decreases n - end,
    {
        end += 1;
    }
    Some((start, end))
}

/// The message of a disagreement.
pub open spec fn mismatch(
    name: Seq<char>,
    local: nat,
    pc: usize,
    op: IlOp,
    predicted: u32,
    actual: u32,
) -> Seq<char> {
    name + " il="@ + dec(local) + " pc="@ + dec(pc as nat) + " "@ + op_tag(op) + ": il="@ + dec(
        predicted as nat,
    ) + " bytecode="@ + dec(actual as nat)
}

fn mismatch_text(name: &str, local: usize, pc: usize, op: &IlOp, predicted: u32, actual: u32) -> (r:
    String)
    ensures
        r@ == mismatch(name@, local as nat, pc, *op, predicted, actual),
{
    let a = dec_str(local as u64);
    let b = dec_str(pc as u64);
    let c = dec_str(predicted as u64);
    let d = dec_str(actual as u64);
    let mut r = cat6(name, " il=", a.as_str(), " pc=", b.as_str(), " ");
    r.append(il_op_tag(op));
    r.append(": il=");
    r.append(c.as_str());
    r.append(" bytecode=");
    r.append(d.as_str());
    r
}

/// What one comparison of a function goes by: its name, its instructions, its operations and
/// where each landed, and the two analyses.
#[verifier::ext_equal]
pub ghost struct BodyV {
    pub name: Seq<char>,
    pub start: usize,
    pub end: usize,
    pub ops: Seq<IlOp>,
    pub pcs: Seq<Option<usize>>,
    pub il: Seq<Tell>,
    pub code: Seq<Tell>,
}

impl BodyV {
    /// After the operation at `i`. Operations that became one instruction share its position and
    /// are compared once.
    pub open spec fn compared(self, d: DiffV, i: int, prev: Option<usize>) -> (DiffV, Option<usize>) {
        let op = self.ops[i];
        let seen = DiffV {
            saw_call: d.saw_call || (op matches IlOp::Entry { kind: EntryKind::Call, .. }),
            saw_store: d.saw_store || op is StorePop,
            ..d
        };
        match self.pcs[i] {
            Some(pc) => if pc < self.start || pc >= self.end || prev == Some(pc) {
                (seen, prev)
            } else {
                (self.checked(seen, i, pc), Some(pc))
            },
            None => (seen, prev),
        }
    }

    /// After the cursor of operation `i` is held against the one at `pc`.
    pub open spec fn checked(self, d: DiffV, i: int, pc: usize) -> DiffV {
        let d1 = DiffV { checked: counted(d.checked), ..d };
        match tell_at(self.il, i) {
            Tell::Known(predicted) => {
                let d2 = DiffV { known: counted(d.known), ..d1 };
                match tell_at(self.code, pc as int) {
                    Tell::Known(actual) => if actual == predicted || d.mismatches.len() >= 12 {
                        d2
                    } else {
                        DiffV {
                            mismatches: d.mismatches.push(
                                mismatch(self.name, i as nat, pc, self.ops[i], predicted, actual),
                            ),
                            ..d2
                        }
                    },
                    Tell::Unknown => d2,
                }
            },
            Tell::Unknown => d1,
        }
    }

    /// After the operations from `i` on.
    pub open spec fn compared_from(self, d: DiffV, i: int, prev: Option<usize>) -> DiffV
        decreases self.ops.len() - i,
    {
        if i >= self.ops.len() {
            d
        } else {
            let (d2, p2) = self.compared(d, i, prev);
            self.compared_from(d2, i + 1, p2)
        }
    }
}

/// The cursor at the entry of the function at `pc`, among the seeds from `i` on.
pub open spec fn seed_of(seeds: Seq<(usize, u32)>, pc: usize, i: int) -> Option<u32>
    decreases seeds.len() - i,
{
    if i >= seeds.len() {
        None
    } else if seeds[i].0 == pc {
        Some(seeds[i].1)
    } else {
        seed_of(seeds, pc, i + 1)
    }
}

/// Operations, instructions and the map between them.
#[verifier::ext_equal]
pub ghost struct ProgramV {
    pub ops: Seq<IlOp>,
    pub post: Seq<Option<usize>>,
    pub code: Seq<Byte>,
    pub pool: Seq<u64>,
}

impl ProgramV {
    /// After the function `name` with the instructions `s..e` is compared.
    pub open spec fn function_compared(
        self,
        d: DiffV,
        name: Seq<char>,
        s: usize,
        e: usize,
        seed: Option<u32>,
    ) -> DiffV {
        match (seed, raw_range(self.ops, self.post, s, e)) {
            (Some(seed), Some(r)) => {
                let body = self.ops.subrange(r.0, r.1);
                BodyV {
                    name,
                    start: s,
                    end: e,
                    ops: body,
                    pcs: landings(self.ops, self.post).subrange(r.0, r.1),
                    il: told(op_sites(body), 0, seed),
                    code: told(code_sites(self.code, self.pool), s as int, seed),
                }.compared_from(d, 0, None)
            },
            _ => d,
        }
    }

    /// After the functions from `i` on are compared.
    pub open spec fn compared_from(
        self,
        d: DiffV,
        ranges: Seq<(Seq<char>, usize, usize)>,
        seeds: Seq<(usize, u32)>,
        i: int,
    ) -> DiffV
        decreases ranges.len() - i,
    {
        if i >= ranges.len() {
            d
        } else {
            self.compared_from(
                self.function_compared(
                    d,
                    ranges[i].0,
                    ranges[i].1,
                    ranges[i].2,
                    seed_of(seeds, ranges[i].1, 0),
                ),
                ranges,
                seeds,
                i + 1,
            )
        }
    }
}

/// Named ranges as text.
pub open spec fn named_ranges(v: Seq<(String, usize, usize)>) -> Seq<(Seq<char>, usize, usize)> {
    Seq::new(v.len(), |i: int| (v[i].0@, v[i].1, v[i].2))
}

fn find_seed(seeds: &[(usize, u32)], pc: usize) -> (r: Option<u32>)
    ensures
        r == seed_of(seeds@, pc, 0),
{
    let mut i: usize = 0;
    while i < seeds.len()
        invariant
            i <= seeds@.len(),
            seed_of(seeds@, pc, 0) == seed_of(seeds@, pc, i as int),
        decreases seeds@.len() - i,
    {
        if seeds[i].0 == pc {
            return Some(seeds[i].1);
        }
        i += 1;
    }
    None
}

impl IlTellDiff {
    fn check(
        &mut self,
        name: &str,
        local: usize,
        pc: usize,
        op: &IlOp,
        il: Tell,
        code: Tell,
        Ghost(b): Ghost<BodyV>,
    )
        requires
            b.name == name@,
            local < b.ops.len(),
            b.ops[local as int] == *op,
            il == tell_at(b.il, local as int),
            code == tell_at(b.code, pc as int),
        ensures
            final(self)@ == b.checked(old(self)@, local as int, pc),
    {
        self.checked = count(self.checked);
        if let Tell::Known(predicted) = il {
            self.known = count(self.known);
            if let Tell::Known(actual) = code {
                if actual != predicted && self.mismatches.len() < 12 {
                    let ghost m0 = texts(self.mismatches@);
                    let m = mismatch_text(name, local, pc, op, predicted, actual);
                    self.mismatches.push(m);
                    assert(texts(self.mismatches@) =~= m0.push(m@));
                }
            }
        }
    }

    fn compare_body(
        &mut self,
        name: &str,
        start: usize,
        end: usize,
        body: &[IlOp],
        pcs: &[Option<usize>],
        il: &TellInfo,
        code: &TellInfo,
    )
        requires
            body@.len() == pcs@.len(),
        ensures
            final(self)@ == (BodyV {
                name: name@,
                start,
                end,
                ops: body@,
                pcs: pcs@,
                il: il.tell_in@,
                code: code.tell_in@,
            }).compared_from(old(self)@, 0, None),
    {
        let ghost b = BodyV {
            name: name@,
            start,
            end,
            ops: body@,
            pcs: pcs@,
            il: il.tell_in@,
            code: code.tell_in@,
        };
        let ghost want = b.compared_from(self@, 0, None);
        let mut prev: Option<usize> = None;
        let mut i: usize = 0;
        while i < body.len()
            invariant
                i <= body@.len(),
                body@.len() == pcs@.len(),
                b == (BodyV {
                    name: name@,
                    start,
                    end,
                    ops: body@,
                    pcs: pcs@,
                    il: il.tell_in@,
                    code: code.tell_in@,
                }),
                want == b.compared_from(self@, i as int, prev),
            decreases body@.len() - i,
        {
            let ghost d0 = self@;
            let ghost p0 = prev;
            let op = &body[i];
            match op {
                IlOp::Entry { kind: EntryKind::Call, .. } => {
                    self.saw_call = true;
                },
                IlOp::StorePop { .. } => {
                    self.saw_store = true;
                },
                _ => {},
            }
            if let Some(pc) = pcs[i] {
                if !(pc < start || pc >= end || prev == Some(pc)) {
                    prev = Some(pc);
                    self.check(
                        name,
                        i,
                        pc,
                        op,
                        il.tell_before(i),
                        code.tell_before(pc),
                        Ghost(b),
                    );
                }
            }
            assert(b.compared(d0, i as int, p0) == (self@, prev));
            i += 1;
        }
    }
}

/// Compares the cursors of operations with those of the instructions that they became, function
/// by function. `pre_to_post` holds the position of each instruction by its number among the
/// operations, `seeds` the cursor at each entry; a function without a seed is skipped. Where an
/// operation's cursor is known and the instruction's is known, they must agree.
pub fn diff_il_against_bytecode(
    ops: &[IlOp],
    pre_to_post: &Vec<Option<usize>>,
    bytecode: &[Byte],
    pool: &[u64],
    ranges: &[(String, usize, usize)],
    seeds: &[(usize, u32)],
) -> (r: IlTellDiff)
    ensures
        r@ == (ProgramV {
            ops: ops@,
            post: pre_to_post@,
            code: bytecode@,
            pool: pool@,
        }).compared_from(no_diff(), named_ranges(ranges@), seeds@, 0),
{
    let ghost p = ProgramV { ops: ops@, post: pre_to_post@, code: bytecode@, pool: pool@ };
    let ghost rv = named_ranges(ranges@);
    let mut report = IlTellDiff::default();
    let pcs = find_landings(ops, pre_to_post);
    let mut i: usize = 0;
    while i < ranges.len()
        invariant
            i <= ranges@.len(),
            p == (ProgramV { ops: ops@, post: pre_to_post@, code: bytecode@, pool: pool@ }),
            rv == named_ranges(ranges@),
            pcs@ == landings(ops@, pre_to_post@),
            p.compared_from(no_diff(), rv, seeds@, 0) == p.compared_from(
                report@,
                rv,
                seeds@,
                i as int,
            ),
        decreases ranges@.len() - i,
    {
        let start = ranges[i].1;
        let end = ranges[i].2;
        assert(rv[i as int] == (ranges@[i as int].0@, start, end));
        if let Some(seed) = find_seed(seeds, start) {
            if let Some((a, b)) = il_fn_raw_range(ops, pre_to_post, start, end) {
                let body = vstd::slice::slice_subrange(ops, a, b);
                let body_pcs = vstd::slice::slice_subrange(pcs.as_slice(), a, b);
                let il = analyze_il_at(body, seed);
                let code = analyze_at(bytecode, pool, start, seed);
                report.compare_body(ranges[i].0.as_str(), start, end, body, body_pcs, &il, &code);
            }
        }
        i += 1;
    }
    report
}


/// In straight code of two positions the second begins where the first ends.
proof fn second_follows_first(sites: Seq<Site>, seed: u32)
    requires
        sites.len() == 2,
        sites[0].target is None,
        !sites[0].stops,
        sites[1].target is None,
        sites[1].stops,
        applied(Tell::Known(seed), sites[0].fall) is Some,
    ensures
        told(sites, 0, seed)[1] == applied(Tell::Known(seed), sites[0].fall)->0,
{
    let s0 = seeded(2, 0, seed);
    let t1 = applied(Tell::Known(seed), sites[0].fall)->0;
    let s1 = seq![Some(Tell::Known(seed)), Some(t1)];
    reveal_with_fuel(pass_from, 3);
    assert(visited(s0, sites, 0) =~= s1);
    assert(visited(s1, sites, 1) =~= s1);
    assert(visited(s1, sites, 0) =~= s1);
    assert(pass_from(s0, sites, 0) == s1);
    assert(pass_from(s1, sites, 0) == s1);
    assert(s0[1] != s1[1]);
    reveal_with_fuel(settled, 3);
    assert(solution(sites, 0, seed) == s1);
}

/// In straight code of three positions each begins where the one before it ends.
proof fn third_follows_second(sites: Seq<Site>, seed: u32)
    requires
        sites.len() == 3,
        sites[0].target is None,
        !sites[0].stops,
        sites[1].target is None,
        !sites[1].stops,
        sites[2].target is None,
        sites[2].stops,
        applied(Tell::Known(seed), sites[0].fall) is Some,
        applied(applied(Tell::Known(seed), sites[0].fall)->0, sites[1].fall) is Some,
    ensures
        told(sites, 0, seed)[2] == applied(
            applied(Tell::Known(seed), sites[0].fall)->0,
            sites[1].fall,
        )->0,
{
    let s0 = seeded(3, 0, seed);
    let t1 = applied(Tell::Known(seed), sites[0].fall)->0;
    let t2 = applied(t1, sites[1].fall)->0;
    let one: Seq<Option<Tell>> = seq![Some(Tell::Known(seed)), Some(t1), None];
    let s1 = seq![Some(Tell::Known(seed)), Some(t1), Some(t2)];
    reveal_with_fuel(pass_from, 4);
    assert(visited(s0, sites, 0) =~= one);
    assert(visited(one, sites, 1) =~= s1);
    assert(visited(s1, sites, 2) =~= s1);
    assert(visited(s1, sites, 0) =~= s1);
    assert(visited(s1, sites, 1) =~= s1);
    assert(pass_from(s0, sites, 0) == s1);
    assert(pass_from(s1, sites, 0) == s1);
    assert(s0[1] != s1[1]);
    reveal_with_fuel(settled, 3);
    assert(solution(sites, 0, seed) == s1);
}

/// Cursor behind a call of that many arguments, as the operation and as the instruction has it:
/// both pop the arguments and push one result.
pub fn entry_call_tell_after(arity: u32, seed: u32) -> (r: (Tell, Tell))
    ensures
        r.0 == r.1,
        r.0 == Tell::Known(shifted(seed, call_delta(arity, false))),
{
    let loc = DebugLoc::unknown();
    let mut ops: Vec<IlOp> = Vec::new();
    ops.push(IlOp::Entry { kind: EntryKind::Call, arity, target: Label(0), loc, ret_words: 1 });
    ops.push(IlOp::Return { loc, ret_words: 1 });
    let il = analyze_il_at(ops.as_slice(), seed).tell_before(1);
    let mut code: Vec<Byte> = Vec::new();
    code.push(Byte::new(Instruction::CALL).with_call_packed(arity, 0));
    code.push(Byte::new(Instruction::RETURN));
    let pool: Vec<u64> = Vec::new();
    let bc = analyze_at(code.as_slice(), pool.as_slice(), 0, seed).tell_before(1);
    proof {
        let a = op_sites(ops@);
        let b = code_sites(code@, pool@);
        reveal_with_fuel(next_op, 2);
        assert(a[0].fall == Effect::Delta(call_delta(arity, false)));
        assert(b[0].fall == Effect::Delta(call_delta(arity, false)));
        second_follows_first(a, seed);
        second_follows_first(b, seed);
    }
    (il, bc)
}

/// Cursor behind a constant and a store of it to `slot`, as the operations and as the
/// instructions have it: not below the slot, and not below where it was.
pub fn store_pop_tell_after(slot: u32, seed: u32) -> (r: (Tell, Tell))
    ensures
        r.0 == r.1,
        seed < u32::MAX ==> r.0 == Tell::Known(
            if seed < above(slot) {
                above(slot)
            } else {
                seed
            },
        ),
{
    let loc = DebugLoc::unknown();
    let mut ops: Vec<IlOp> = Vec::new();
    ops.push(IlOp::Const { imm: 1, loc });
    ops.push(IlOp::StorePop { slot, loc });
    ops.push(IlOp::Return { loc, ret_words: 1 });
    let il = analyze_il_at(ops.as_slice(), seed).tell_before(2);
    let mut code: Vec<Byte> = Vec::new();
    code.push(Byte::new(Instruction::CONST).with_const_inline(1));
    code.push(Byte::new(Instruction::STORE).with_load_store_slot(slot));
    code.push(Byte::new(Instruction::RETURN));
    let pool: Vec<u64> = Vec::new();
    let bc = analyze_at(code.as_slice(), pool.as_slice(), 0, seed).tell_before(2);
    proof {
        let a = op_sites(ops@);
        let b = code_sites(code@, pool@);
        reveal_with_fuel(next_op, 2);
        reveal_with_fuel(highest_slot, 2);
        assert(a[0].fall == Effect::Delta(1));
        assert(b[0].fall == Effect::Delta(1));
        assert(a[1].fall == Effect::DeltaThenFloor(-1i32, above(slot)));
        assert(code@[1].slot_count() == 1);
        assert(highest_slot(code@[1], 1) == slot);
        assert(b[1].fall == Effect::DeltaThenFloor(-1i32, above(slot)));
        third_follows_second(a, seed);
        third_follows_second(b, seed);
    }
    (il, bc)
}

} // verus!
