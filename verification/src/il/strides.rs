//! Reduced code computes the products that it replaces.
//!
//! Wherever the loop reads the accumulator, it holds the counter times the factor: the code in
//! front of the loop makes it so, no operation of the loop but the counter's store changes any of
//! the three, and the code behind that store makes it so again.
use super::loops::{preheader, stored, writes, NaturalLoop};
use super::op::{DebugLoc, IlOp, Instruction, Operand};
use super::run::{may_go, run, running_in_pieces, step, Frame};
use super::strength::{
    chain_renamed, fixed_factor, induction, loaded, loc_of, popped_to, product_end, renamed, setup_code, site_reduced, step_at,
    step_from, step_op, store_from, top_slot, top_slot_of, update_code, Step,
};
use crate::words::{wrap64, Machine};
use vstd::prelude::*;

verus! {

// Wrapping around.

/// Wrapping around before a sum, a difference or a product does not show behind it.
proof fn wrapping_early(x: int, y: int, c: int)
    ensures
        wrap64(wrap64(x) + wrap64(y)) == wrap64(x + y),
        wrap64(wrap64(x) - wrap64(y)) == wrap64(x - y),
        wrap64(wrap64(x) * c) == wrap64(x * c),
{
    let n = 0x1_0000_0000_0000_0000int;
    let a = (x - wrap64(x)) / n;
    let b = (y - wrap64(y)) / n;
    assert(x == wrap64(x) + a * n) by {
        vstd::arithmetic::div_mod::lemma_fundamental_div_mod(x, n);
    }
    assert(y == wrap64(y) + b * n) by {
        vstd::arithmetic::div_mod::lemma_fundamental_div_mod(y, n);
    }
    multiples_wrap_away(wrap64(x) + wrap64(y), a + b);
    multiples_wrap_away(wrap64(x) - wrap64(y), a - b);
    multiples_wrap_away(wrap64(x) * c, a * c);
    assert(x * c == wrap64(x) * c + (a * c) * n) by (nonlinear_arith)
        requires
            x == wrap64(x) + a * n,
    ;
    assert((a + b) * n == a * n + b * n) by (nonlinear_arith);
    assert((a - b) * n == a * n - b * n) by (nonlinear_arith);
}

proof fn multiples_wrap_away(x: int, k: int)
    ensures
        wrap64(x + k * 0x1_0000_0000_0000_0000) == wrap64(x),
{
    vstd::arithmetic::div_mod::lemma_mod_multiples_vanish(k, x, 0x1_0000_0000_0000_0000);
}

// What the code reads.

/// The word that an operation pushes.
pub open spec fn pushes(m: Machine, pool: Seq<u64>, op: IlOp, s: Frame) -> int {
    (step(m, pool, op, s)->0).below(0)
}

/// The factor of a product with slot `iv`, in a frame.
pub open spec fn factor(m: Machine, pool: Seq<u64>, chain: Seq<IlOp>, iv: u32, s: Frame) -> int {
    if chain.len() == 3 {
        if loaded(chain[0]) == Some(iv) {
            pushes(m, pool, chain[1], s)
        } else {
            pushes(m, pool, chain[0], s)
        }
    } else {
        match chain[0] {
            IlOp::BinSlotImm { imm, .. } => imm as int,
            IlOp::BinSlotSlot { a, b, .. } => if a as u32 == iv {
                s.slot(b as u32)
            } else {
                s.slot(a as u32)
            },
            _ => 0,
        }
    }
}

/// What a step adds to the counter, in a frame.
pub open spec fn stride(step: Step, s: Frame) -> int {
    match step {
        Step::Imm(k) => k as int,
        Step::Slot(k) => s.slot(k),
    }
}

/// The accumulator holds the counter times the factor, and the slot behind it what a step adds to
/// that product.
pub open spec fn keeps_up(
    m: Machine,
    pool: Seq<u64>,
    chain: Seq<IlOp>,
    iv: u32,
    by: Step,
    acc: u32,
    s: Frame,
) -> bool {
    let c = factor(m, pool, chain, iv, s);
    &&& s.slot(acc) == wrap64(s.slot(iv) * c)
    &&& s.slot((acc + 1) as u32) == wrap64(stride(by, s) * c)
}

/// A product that is found multiplies the counter with its factor.
pub proof fn products_are_of_counter_and_factor(
    m: Machine,
    pool: Seq<u64>,
    ops: Seq<IlOp>,
    lp: NaturalLoop,
    iv: u32,
    i: int,
    s: Frame,
)
    requires
        0 <= i < lp.latch < ops.len(),
        product_end(ops, lp, iv, i) is Some,
        run(m, pool, ops.subrange(i, product_end(ops, lp, iv, i)->0), 0, s) is Some,
    ensures
        ({
            let chain = ops.subrange(i, product_end(ops, lp, iv, i)->0);
            run(m, pool, chain, 0, s) == Some(s.push(wrap64(s.slot(iv) * factor(m, pool, chain, iv, s))))
        }),
{
    let e = product_end(ops, lp, iv, i)->0;
    let chain = ops.subrange(i, e);
    reveal_with_fuel(run, 4);
    if chain.len() == 3 {
        assert(chain[0] == ops[i] && chain[1] == ops[i + 1] && chain[2] == ops[i + 2]);
        let t = step(m, pool, chain[0], s)->0;
        let u = step(m, pool, chain[1], t)->0;
        assert(u.stack =~= s.stack.push(t.below(0)).push(u.below(0)));
        assert(u.less(2) =~= s);
        let x = t.below(0);
        let y = u.below(0);
        assert(x * y == y * x) by (nonlinear_arith);
    } else {
        assert(chain[0] == ops[i]);
        if let IlOp::BinSlotSlot { a, b, .. } = chain[0] {
            let x = s.slot(a as u32);
            let y = s.slot(b as u32);
            assert(x * y == y * x) by (nonlinear_arith);
        }
    }
}

/// Where the accumulator keeps up, reading it gives what the product gives.
pub proof fn the_accumulator_is_the_product(
    m: Machine,
    pool: Seq<u64>,
    ops: Seq<IlOp>,
    lp: NaturalLoop,
    iv: u32,
    by: Step,
    i: int,
    acc: u32,
    loc: DebugLoc,
    s: Frame,
)
    requires
        0 <= i < lp.latch < ops.len(),
        product_end(ops, lp, iv, i) is Some,
        run(m, pool, ops.subrange(i, product_end(ops, lp, iv, i)->0), 0, s) is Some,
        keeps_up(m, pool, ops.subrange(i, product_end(ops, lp, iv, i)->0), iv, by, acc, s),
    ensures
        step(m, pool, IlOp::Load { slot: acc, loc }, s) == run(
            m,
            pool,
            ops.subrange(i, product_end(ops, lp, iv, i)->0),
            0,
            s,
        ),
{
    products_are_of_counter_and_factor(m, pool, ops, lp, iv, i, s);
}

// The loop.

/// An instruction that works on numbered slots.
pub open spec fn dense(op: IlOp) -> bool {
    match op {
        IlOp::Byte { byte, .. } => byte.arg is Dense || byte.arg is DenseConst || byte.arg is DenseObject,
        _ => false,
    }
}

/// An operation that does not write a slot leaves it alone.
pub proof fn unwritten_slots_stay(m: Machine, pool: Seq<u64>, op: IlOp, s: Frame, t: Frame, k: u32)
    requires
        may_go(m, pool, op, s, t),
        !writes(op, k),
        !dense(op),
    ensures
        t.slot(k) == s.slot(k),
{
    if let IlOp::Byte { byte, .. } = op {
        if let Operand::Slots { count, a, b, c } = byte.arg {
            if byte.inst is STORE || byte.inst is StorePop {
                assert(byte.slot_count() >= 1 ==> byte.slot_at(0) != k);
                assert(byte.slot_count() >= 2 ==> byte.slot_at(1) != k);
                assert(byte.slot_count() >= 3 ==> byte.slot_at(2) != k);
            }
        }
    }
}

proof fn steps_are_fixed(ops: Seq<IlOp>, lp: NaturalLoop, iv: u32, i: int, found: Option<Step>)
    requires
        found matches Some(Step::Slot(k)) ==> k != iv && !stored(ops, lp, k),
    ensures
        step_from(ops, lp, iv, i, found) matches Some(Step::Slot(k)) ==> k != iv && !stored(ops, lp, k),
    decreases lp.latch - i,
{
    if i < lp.latch {
        if popped_to(ops[i]) == Some(iv) {
            if let Some(x) = step_at(ops, lp, i, iv) {
                steps_are_fixed(ops, lp, iv, i + 1, Some(x));
            }
        } else {
            steps_are_fixed(ops, lp, iv, i + 1, found);
        }
    }
}

proof fn slots_are_below_the_top(ops: Seq<IlOp>, n: int, k: int)
    requires
        0 <= k < n <= ops.len(),
    ensures
        top_slot(ops[k]) <= top_slot_of(ops, n),
    decreases n,
{
    if k < n - 1 {
        slots_are_below_the_top(ops, n - 1, k);
    }
}

/// Byte-level operations of the loop leave the slot alone, and work on no numbered slots.
pub open spec fn bytes_spare(ops: Seq<IlOp>, lp: NaturalLoop, k: u32) -> bool {
    forall|x: int|
        lp.header <= x <= lp.latch && (#[trigger] ops[x]) is Byte ==> !writes(ops[x], k) && !dense(ops[x])
}

/// No operation of the loop but the counter's store changes the counter, the factor, the step or
/// the accumulator: where it kept up before, it keeps up behind.
pub proof fn the_loop_keeps_up(
    m: Machine,
    pool: Seq<u64>,
    ops: Seq<IlOp>,
    lp: NaturalLoop,
    iv: u32,
    by: Step,
    i: int,
    k: int,
    s: Frame,
    t: Frame,
)
    requires
        lp.header <= k <= lp.latch < ops.len(),
        0 <= i < lp.latch,
        induction(ops, lp) == Some((iv, by)),
        product_end(ops, lp, iv, i) is Some,
        top_slot_of(ops, ops.len() as int) <= 247,
        bytes_spare(ops, lp, iv),
        bytes_spare(ops, lp, (top_slot_of(ops, ops.len() as int) + 1) as u32),
        bytes_spare(ops, lp, (top_slot_of(ops, ops.len() as int) + 2) as u32),
        popped_to(ops[k]) != Some(iv),
        may_go(m, pool, ops[k], s, t),
        keeps_up(
            m,
            pool,
            ops.subrange(i, product_end(ops, lp, iv, i)->0),
            iv,
            by,
            (top_slot_of(ops, ops.len() as int) + 1) as u32,
            s,
        ),
    ensures
        keeps_up(
            m,
            pool,
            ops.subrange(i, product_end(ops, lp, iv, i)->0),
            iv,
            by,
            (top_slot_of(ops, ops.len() as int) + 1) as u32,
            t,
        ),
        t.slot(iv) == s.slot(iv),
        factor(m, pool, ops.subrange(i, product_end(ops, lp, iv, i)->0), iv, t) == factor(
            m,
            pool,
            ops.subrange(i, product_end(ops, lp, iv, i)->0),
            iv,
            s,
        ),
{
    let acc = (top_slot_of(ops, ops.len() as int) + 1) as u32;
    let e = product_end(ops, lp, iv, i)->0;
    let chain = ops.subrange(i, e);
    let op = ops[k];
    slots_are_below_the_top(ops, ops.len() as int, k);
    steps_are_fixed(ops, lp, iv, lp.header + 1, None);
    assert(chain[0] == ops[i]);
    if chain.len() == 3 {
        assert(chain[1] == ops[i + 1] && chain[2] == ops[i + 2]);
    }
    unwritten_slots_stay(m, pool, op, s, t, iv);
    unwritten_slots_stay(m, pool, op, s, t, acc);
    unwritten_slots_stay(m, pool, op, s, t, (acc + 1) as u32);
    assert forall|x: u32| !stored(ops, lp, x) implies #[trigger] t.slots[x] == s.slots[x] by {
        unwritten_slots_stay(m, pool, op, s, t, x);
        assert(t.slot(x) == s.slot(x));
    }
    if let Step::Slot(x) = by {
        assert(t.slots[x] == s.slots[x]);
    }
    if chain.len() == 3 {
        let f = if loaded(chain[0]) == Some(iv) {
            chain[1]
        } else {
            chain[0]
        };
        assert(fixed_factor(ops, lp, f, iv));
        if let IlOp::Load { slot, .. } = f {
            assert(t.slots[slot] == s.slots[slot]);
        }
    } else if let IlOp::BinSlotSlot { a, b, .. } = chain[0] {
        let x = if a as u32 == iv {
            b as u32
        } else {
            a as u32
        };
        assert(t.slots[x] == s.slots[x]);
    }
}

/// Number of operations in front of the counter's store that compute what is stored.
pub open spec fn step_len(op: IlOp) -> int {
    if op is Bin {
        3
    } else {
        1
    }
}

/// The operations in front of the counter's store push the counter plus its step.
pub proof fn steps_are_added(
    m: Machine,
    pool: Seq<u64>,
    ops: Seq<IlOp>,
    lp: NaturalLoop,
    iv: u32,
    i: int,
    s: Frame,
)
    requires
        1 <= i < ops.len(),
        step_at(ops, lp, i, iv) is Some,
    ensures
        step_len(ops[i - 1]) <= i,
        run(m, pool, ops.subrange(i - step_len(ops[i - 1]), i), 0, s) == Some(
            s.push(wrap64(s.slot(iv) + stride(step_at(ops, lp, i, iv)->0, s))),
        ),
{
    reveal_with_fuel(run, 4);
    let n = step_len(ops[i - 1]);
    let code = ops.subrange(i - n, i);
    if n == 3 {
        assert(code[0] == ops[i - 3] && code[1] == ops[i - 2] && code[2] == ops[i - 1]);
        let t = step(m, pool, code[0], s)->0;
        let u = step(m, pool, code[1], t)->0;
        assert(u.stack =~= s.stack.push(t.below(0)).push(u.below(0)));
        assert(u.less(2) =~= s);
    } else {
        assert(code[0] == ops[i - 1]);
    }
}

/// Running one typed store.
proof fn stores_run(m: Machine, pool: Seq<u64>, op: IlOp, iv: u32, a: Frame)
    requires
        popped_to(op) == Some(iv),
        a.stack.len() > 0,
    ensures
        run(m, pool, seq![op], 0, a) == Some(a.less(1).put(iv, a.below(0))),
{
    reveal_with_fuel(run, 2);
}

/// The update adds what a step adds.
proof fn updates_run(m: Machine, pool: Seq<u64>, acc: u32, loc: DebugLoc, b: Frame)
    requires
        acc < u32::MAX,
    ensures
        run(m, pool, update_code(acc, loc), 0, b) == Some(
            b.put(acc, wrap64(b.slot(acc) + b.slot((acc + 1) as u32))),
        ),
{
    let update = update_code(acc, loc);
    reveal_with_fuel(run, 5);
    let sum = wrap64(b.slot(acc) + b.slot((acc + 1) as u32));
    let b1 = b.push(b.slot(acc));
    let b2 = b1.push(b.slot((acc + 1) as u32));
    assert(step(m, pool, update[0], b) == Some(b1));
    assert(step(m, pool, update[1], b1) == Some(b2));
    assert(b2.less(2).stack =~= b.stack);
    assert(step(m, pool, update[2], b2) == Some(b.push(sum)));
    let t = b.put(acc, sum);
    assert(b.push(sum).less(1).stack =~= b.stack);
    assert(step(m, pool, update[3], b.push(sum)) == Some(t));
}

/// Behind the counter's store the accumulator keeps up again.
#[verifier::spinoff_prover]
#[verifier::rlimit(40)]
pub proof fn the_update_keeps_up(
    m: Machine,
    pool: Seq<u64>,
    ops: Seq<IlOp>,
    lp: NaturalLoop,
    iv: u32,
    by: Step,
    i: int,
    k: int,
    loc: DebugLoc,
    s: Frame,
)
    requires
        lp.latch < ops.len(),
        0 <= i < lp.latch,
        1 <= k < ops.len(),
        induction(ops, lp) == Some((iv, by)),
        product_end(ops, lp, iv, i) is Some,
        popped_to(ops[k]) == Some(iv),
        step_at(ops, lp, k, iv) == Some(by),
        top_slot_of(ops, ops.len() as int) <= 247,
        keeps_up(
            m,
            pool,
            ops.subrange(i, product_end(ops, lp, iv, i)->0),
            iv,
            by,
            (top_slot_of(ops, ops.len() as int) + 1) as u32,
            s,
        ),
    ensures
        ({
            let acc = (top_slot_of(ops, ops.len() as int) + 1) as u32;
            let code = ops.subrange(k - step_len(ops[k - 1]), k + 1) + update_code(acc, loc);
            match run(m, pool, code, 0, s) {
                Some(t) => {
                    &&& keeps_up(m, pool, ops.subrange(i, product_end(ops, lp, iv, i)->0), iv, by, acc, t)
                    &&& t.slot(iv) == wrap64(s.slot(iv) + stride(by, s))
                    &&& t.stack == s.stack
                    &&& forall|x: u32| x != iv && x != acc ==> #[trigger] t.slots[x] == s.slots[x]
                },
                None => false,
            }
        }),
{
    let acc = (top_slot_of(ops, ops.len() as int) + 1) as u32;
    let chain = ops.subrange(i, product_end(ops, lp, iv, i)->0);
    let n = step_len(ops[k - 1]);
    let front = ops.subrange(k - n, k);
    let update = update_code(acc, loc);
    let c = factor(m, pool, chain, iv, s);
    let d = stride(by, s);
    let next = wrap64(s.slot(iv) + d);
    steps_are_added(m, pool, ops, lp, iv, k, s);
    steps_are_fixed(ops, lp, iv, lp.header + 1, None);
    slots_are_below_the_top(ops, ops.len() as int, k);
    slots_are_below_the_top(ops, ops.len() as int, k - 1);
    if n == 3 {
        slots_are_below_the_top(ops, ops.len() as int, k - 2);
        slots_are_below_the_top(ops, ops.len() as int, k - 3);
    }
    slots_are_below_the_top(ops, ops.len() as int, i);
    assert(chain[0] == ops[i]);
    if chain.len() == 3 {
        assert(chain[1] == ops[i + 1] && chain[2] == ops[i + 2]);
        slots_are_below_the_top(ops, ops.len() as int, i + 1);
    }
    let store = seq![ops[k]];
    let code = ops.subrange(k - n, k + 1) + update;
    assert(code =~= front + (store + update));
    running_in_pieces(m, pool, front, store + update, 0, s);
    let a = s.push(next);
    running_in_pieces(m, pool, store, update, 0, a);
    let b = s.put(iv, next);
    stores_run(m, pool, ops[k], iv, a);
    assert(a.less(1).stack =~= s.stack);
    assert(run(m, pool, store, 0, a) == Some(b));
    updates_run(m, pool, acc, loc, b);
    let sum = wrap64(b.slot(acc) + b.slot((acc + 1) as u32));
    let t = b.put(acc, sum);
    assert(run(m, pool, code, 0, s) == Some(t));
    assert(factor(m, pool, chain, iv, t) == c);
    assert(stride(by, t) == d);
    wrapping_early(s.slot(iv) * c, d * c, 1);
    wrapping_early(s.slot(iv) + d, 0, c);
    assert((s.slot(iv) + d) * c == s.slot(iv) * c + d * c) by (nonlinear_arith);
}

// In front of the loop.

/// The product with its counter read from another slot.
proof fn renamed_products(
    m: Machine,
    pool: Seq<u64>,
    ops: Seq<IlOp>,
    lp: NaturalLoop,
    iv: u32,
    i: int,
    tmp: u8,
    s: Frame,
)
    requires
        0 <= i < lp.latch < ops.len(),
        product_end(ops, lp, iv, i) is Some,
        run(m, pool, ops.subrange(i, product_end(ops, lp, iv, i)->0), 0, s) is Some,
        top_slot_of(ops, ops.len() as int) < tmp,
    ensures
        ({
            let chain = ops.subrange(i, product_end(ops, lp, iv, i)->0);
            run(m, pool, chain_renamed(chain, iv, tmp), 0, s) == Some(
                s.push(wrap64(s.slot(tmp as u32) * factor(m, pool, chain, iv, s))),
            )
        }),
{
    let e = product_end(ops, lp, iv, i)->0;
    let chain = ops.subrange(i, e);
    let code = chain_renamed(chain, iv, tmp);
    reveal_with_fuel(run, 4);
    assert(chain[0] == ops[i]);
    assert(code[0] == renamed(chain[0], iv, tmp));
    if chain.len() == 3 {
        assert(chain[1] == ops[i + 1] && chain[2] == ops[i + 2]);
        assert(code[1] == renamed(chain[1], iv, tmp) && code[2] == renamed(chain[2], iv, tmp));
        let t = step(m, pool, code[0], s)->0;
        let u = step(m, pool, code[1], t)->0;
        assert(u.stack =~= s.stack.push(t.below(0)).push(u.below(0)));
        assert(u.less(2) =~= s);
        let x = t.below(0);
        let y = u.below(0);
        assert(x * y == y * x) by (nonlinear_arith);
    } else if let IlOp::BinSlotSlot { a, b, .. } = chain[0] {
        let x = s.slot(tmp as u32);
        let y = if a as u32 == iv {
            s.slot(b as u32)
        } else {
            s.slot(a as u32)
        };
        assert(x * y == y * x) by (nonlinear_arith);
    }
}

/// The code in front of the loop makes the accumulator keep up, and changes no slot that the code
/// names.
#[verifier::spinoff_prover]
#[verifier::rlimit(40)]
pub proof fn the_setup_keeps_up(
    m: Machine,
    pool: Seq<u64>,
    ops: Seq<IlOp>,
    lp: NaturalLoop,
    iv: u32,
    by: Step,
    i: int,
    loc: DebugLoc,
    s: Frame,
)
    requires
        0 <= i < lp.latch < ops.len(),
        product_end(ops, lp, iv, i) is Some,
        run(m, pool, ops.subrange(i, product_end(ops, lp, iv, i)->0), 0, s) is Some,
        top_slot_of(ops, ops.len() as int) <= 247,
        iv <= top_slot_of(ops, ops.len() as int),
        by matches Step::Slot(k) ==> k <= top_slot_of(ops, ops.len() as int),
    ensures
        ({
            let top = top_slot_of(ops, ops.len() as int);
            let acc = (top + 1) as u32;
            let chain = ops.subrange(i, product_end(ops, lp, iv, i)->0);
            match run(m, pool, setup_code(chain, iv, by, acc, loc), 0, s) {
                Some(t) => {
                    &&& keeps_up(m, pool, chain, iv, by, acc, t)
                    &&& t.stack == s.stack
                    &&& forall|x: u32| x <= top ==> #[trigger] t.slots[x] == s.slots[x]
                },
                None => false,
            }
        }),
{
    let top = top_slot_of(ops, ops.len() as int);
    let acc = (top + 1) as u32;
    let delta = (acc + 1) as u32;
    let tmp = (acc + 2) as u8;
    let e = product_end(ops, lp, iv, i)->0;
    let chain = ops.subrange(i, e);
    let c = factor(m, pool, chain, iv, s);
    let d = stride(by, s);
    let a = seq![
        IlOp::StorePop { slot: acc, loc },
        IlOp::Load { slot: iv, loc },
        step_op(by, loc),
        IlOp::Bin { op: Instruction::ADD, loc },
        IlOp::StorePop { slot: tmp as u32, loc },
    ];
    let b = seq![
        IlOp::Load { slot: acc, loc },
        IlOp::Bin { op: Instruction::SUB, loc },
        IlOp::StorePop { slot: delta, loc },
    ];
    let again = chain_renamed(chain, iv, tmp);
    let p0 = wrap64(s.slot(iv) * c);
    let next = wrap64(s.slot(iv) + d);
    slots_are_below_the_top(ops, ops.len() as int, i);
    assert(chain[0] == ops[i]);
    if chain.len() == 3 {
        assert(chain[1] == ops[i + 1] && chain[2] == ops[i + 2]);
        slots_are_below_the_top(ops, ops.len() as int, i + 1);
    }
    products_are_of_counter_and_factor(m, pool, ops, lp, iv, i, s);
    let s0 = s.push(p0);
    let s1 = s.put(acc, p0);
    let s2 = s1.put(tmp as u32, next);
    assert(run(m, pool, a, 0, s0) == Some(s2)) by {
        reveal_with_fuel(run, 6);
        assert(s0.less(1).stack =~= s.stack);
        assert(step(m, pool, a[0], s0) == Some(s1));
        let x1 = s1.push(s.slot(iv));
        assert(step(m, pool, a[1], s1) == Some(x1));
        let x2 = x1.push(d);
        assert(step(m, pool, a[2], x1) == Some(x2));
        assert(x2.less(2).stack =~= s1.stack);
        let x3 = s1.push(next);
        assert(step(m, pool, a[3], x2) == Some(x3));
        assert(x3.less(1).stack =~= s1.stack);
        assert(step(m, pool, a[4], x3) == Some(s2));
    }
    assert(factor(m, pool, chain, iv, s2) == c);
    assert(run(m, pool, chain, 0, s2) is Some) by {
        reveal_with_fuel(run, 4);
        if chain.len() == 3 {
            let t = step(m, pool, chain[0], s2)->0;
            let u = step(m, pool, chain[1], t)->0;
        }
    }
    renamed_products(m, pool, ops, lp, iv, i, tmp, s2);
    let p1 = wrap64(next * c);
    let gap = wrap64(p1 - p0);
    let t = s2.put(delta, gap);
    let s3 = s2.push(p1);
    assert(run(m, pool, b, 0, s3) == Some(t)) by {
        reveal_with_fuel(run, 4);
        let x1 = s3.push(p0);
        assert(step(m, pool, b[0], s3) == Some(x1));
        assert(x1.less(2).stack =~= s2.stack);
        let x2 = s2.push(gap);
        assert(step(m, pool, b[1], x1) == Some(x2));
        assert(x2.less(1).stack =~= s2.stack);
        assert(step(m, pool, b[2], x2) == Some(t));
    }
    let code = setup_code(chain, iv, by, acc, loc);
    assert(code =~= ((chain + a) + again) + b);
    running_in_pieces(m, pool, (chain + a) + again, b, 0, s);
    running_in_pieces(m, pool, chain + a, again, 0, s);
    running_in_pieces(m, pool, chain, a, 0, s);
    assert(factor(m, pool, chain, iv, t) == c);
    assert(stride(by, t) == d);
    wrapping_early(s.slot(iv) + d, 0, c);
    wrapping_early((s.slot(iv) + d) * c, s.slot(iv) * c, 1);
    assert((s.slot(iv) + d) * c - s.slot(iv) * c == d * c) by (nonlinear_arith);
}

// The reduced code.

/// Where operation `x` of the code stands in the reduced code: `n` operations come in front of the
/// loop at `p`, the product from `a` to `e` becomes one, and four come behind the store at `k`.
pub open spec fn place(x: int, p: int, n: int, a: int, e: int, k: int) -> int {
    x + (if x >= p {
        n
    } else {
        0
    }) - (if x >= e {
        e - a - 1
    } else {
        0
    }) + (if x > k {
        4int
    } else {
        0
    })
}

/// The reduced code around the store at `k`.
pub open spec fn arranged(
    ops: Seq<IlOp>,
    lp: NaturalLoop,
    iv: u32,
    by: Step,
    a: int,
    e: int,
    out: Seq<IlOp>,
    k: int,
) -> bool {
    let acc = (top_slot_of(ops, ops.len() as int) + 1) as u32;
    let loc = loc_of(ops[a]);
    let setup = setup_code(ops.subrange(a, e), iv, by, acc, loc);
    let n = setup.len() as int;
    let p = preheader(ops, lp.header as int, lp.header_label);
    &&& lp.header < k < ops.len()
    &&& !(a <= k < e)
    &&& popped_to(ops[k]) == Some(iv)
    &&& out.len() == ops.len() + n + 4 - (e - a - 1)
    &&& out.subrange(p, p + n) == setup
    &&& out[place(a, p, n, a, e, k)] == (IlOp::Load { slot: acc, loc })
    &&& out.subrange(place(k, p, n, a, e, k) + 1, place(k, p, n, a, e, k) + 5) == update_code(acc, loc)
    &&& forall|x: int| 0 <= x < ops.len() && !(a <= x < e) ==> out[place(x, p, n, a, e, k)] == #[trigger] ops[x]
}

proof fn store_is_found(ops: Seq<IlOp>, iv: u32, i: int)
    requires
        0 <= i,
    ensures
        store_from(ops, iv, i) matches Some(k) ==> i <= k < ops.len() && popped_to(ops[k]) == Some(iv),
    decreases ops.len() - i,
{
    if i < ops.len() && popped_to(ops[i]) != Some(iv) {
        store_is_found(ops, iv, i + 1);
    }
}

proof fn pieces_stand_in_place(
    ops: Seq<IlOp>,
    load: IlOp,
    setup: Seq<IlOp>,
    update: Seq<IlOp>,
    p: int,
    a: int,
    e: int,
    k0: int,
)
    requires
        0 <= p < a < e <= ops.len(),
        update.len() == 4,
        p <= k0 < ops.len() - (e - a - 1),
        k0 != a,
    ensures
        ({
            let read = ops.take(a) + seq![load] + ops.skip(e);
            let grown = read.take(k0 + 1) + update + read.skip(k0 + 1);
            let out = grown.take(p) + setup + grown.skip(p);
            let n = setup.len() as int;
            let k = if k0 < a {
                k0
            } else {
                k0 + (e - a - 1)
            };
            &&& p > 0 ==> grown[p - 1] == ops[p - 1]
            &&& grown[p] == ops[p]
            &&& read[k0] == ops[k]
            &&& !(a <= k < e)
            &&& out.len() == ops.len() + n + 4 - (e - a - 1)
            &&& out.subrange(p, p + n) == setup
            &&& out[place(a, p, n, a, e, k)] == load
            &&& out.subrange(place(k, p, n, a, e, k) + 1, place(k, p, n, a, e, k) + 5) == update
            &&& forall|x: int| 0 <= x < ops.len() && !(a <= x < e) ==> out[place(x, p, n, a, e, k)] == #[trigger] ops[x]
        }),
{
    let read = ops.take(a) + seq![load] + ops.skip(e);
    let grown = read.take(k0 + 1) + update + read.skip(k0 + 1);
    let out = grown.take(p) + setup + grown.skip(p);
    let n = setup.len() as int;
    let k = if k0 < a {
        k0
    } else {
        k0 + (e - a - 1)
    };
    assert(out.subrange(p, p + n) =~= setup);
    let q = place(k, p, n, a, e, k);
    assert(q == n + k0);
    assert forall|j: int| 0 <= j < 4 implies out[q + 1 + j] == #[trigger] update[j] by {
        assert(grown[k0 + 1 + j] == update[j]);
    }
    assert(out.subrange(q + 1, q + 5) =~= update);
    assert(read[a] == load);
    assert forall|x: int| 0 <= x < ops.len() && !(a <= x < e) implies out[place(x, p, n, a, e, k)] == #[trigger] ops[x] by {
        let r = if x < a {
            x
        } else {
            x - (e - a - 1)
        };
        assert(read[r] == ops[x]);
        let g = if r <= k0 {
            r
        } else {
            r + 4
        };
        assert(grown[g] == read[r]);
    }
}

/// Reduced code is the code with the set-up in front of the loop, one read of the accumulator for
/// the product, and the update directly behind a store of the counter in the loop. All the rest
/// stays in order.
pub proof fn reduced_code_is_the_code_with_sums(
    ops: Seq<IlOp>,
    lp: NaturalLoop,
    iv: u32,
    by: Step,
    a: int,
    e: int,
) -> (k: int)
    requires
        lp.header < a < e <= lp.latch < ops.len(),
        e == a + 1 || e == a + 3,
        site_reduced(ops, lp, iv, by, a, e) is Some,
    ensures
        arranged(ops, lp, iv, by, a, e, site_reduced(ops, lp, iv, by, a, e)->0, k),
{
    let out = site_reduced(ops, lp, iv, by, a, e)->0;
    let acc = (top_slot_of(ops, ops.len() as int) + 1) as u32;
    let loc = loc_of(ops[a]);
    let setup = setup_code(ops.subrange(a, e), iv, by, acc, loc);
    let n = setup.len() as int;
    let h = lp.header as int;
    let load = IlOp::Load { slot: acc, loc };
    let read = ops.take(a) + seq![load] + ops.skip(e);
    store_is_found(read, iv, h + 1);
    let k0 = store_from(read, iv, h + 1)->0;
    let update = update_code(acc, loc);
    let p = preheader(ops, h, lp.header_label);
    assert(read[a] == load);
    pieces_stand_in_place(ops, load, setup, update, h, a, e, k0);
    pieces_stand_in_place(ops, load, setup, update, p, a, e, k0);
    let grown = read.take(k0 + 1) + update + read.skip(k0 + 1);
    assert(p == preheader(grown, h, lp.header_label));
    if k0 < a {
        k0
    } else {
        k0 + (e - a - 1)
    }
}

} // verus!
