//! Effects of host natives and instructions.
use super::host_allow::{host_native, row_in, HostEffect, HostNative, NativeV};
use super::inst::{InstV, MirInst};
use vstd::prelude::*;

verus! {

/// Effect bits of a host call.
#[derive(Copy, Clone, Debug, PartialEq, Eq, Structural)]
pub struct EffectFlags {
    pub io: bool,
    pub host: bool,
    pub gc: bool,
    pub unknown: bool,
}

impl EffectFlags {
    pub open spec fn pure(self) -> bool {
        !self.io && !self.host && !self.gc && !self.unknown
    }

    pub fn is_pure(self) -> (r: bool)
        ensures
            r == self.pure(),
    {
        !self.io && !self.host && !self.gc && !self.unknown
    }
}

/// Effect bits of a native with the given row. A native without one is a host call of unknown
/// effect.
pub open spec fn row_effects(row: Option<NativeV>) -> EffectFlags {
    match row {
        Some(n) => EffectFlags {
            io: n.effect is Io,
            host: n.effect is Host,
            gc: n.effect is Gc,
            unknown: false,
        },
        None => EffectFlags { io: false, host: true, gc: false, unknown: true },
    }
}

fn flags_of(n: HostNative) -> (r: EffectFlags)
    ensures
        r == row_effects(Some(n@)),
{
    EffectFlags {
        io: n.effect == HostEffect::Io,
        host: n.effect == HostEffect::Host,
        gc: n.effect == HostEffect::Gc,
        unknown: false,
    }
}

/// Effect bits of native `id`. An unknown native is a host call of unknown
/// effect.
pub fn host_effects(rows: &Vec<HostNative>, id: u16) -> (r: EffectFlags)
    ensures
        r == row_effects(row_in(rows@, id)),
{
    match host_native(rows, id) {
        Some(n) => flags_of(n),
        None => EffectFlags { io: false, host: true, gc: false, unknown: true },
    }
}

pub fn host_is_pure(rows: &Vec<HostNative>, id: u16) -> (r: bool)
    ensures
        r == row_effects(row_in(rows@, id)).pure(),
{
    host_effects(rows, id).is_pure()
}

pub open spec fn packed_name(name: Seq<char>) -> bool {
    "packed_"@.len() <= name.len() && name.subrange(0, "packed_"@.len() as int) == "packed_"@
}

/// A pure native that reads no heap memory.
pub open spec fn row_may_hoist(row: Option<NativeV>) -> bool {
    row_effects(row).pure() && (match row {
        Some(n) => !packed_name(n.name),
        None => false,
    })
}

/// Loop-invariant motion may move scalar-pure math. Packed linear algebra reads
/// heap memory and stays in place.
pub fn host_may_hoist(rows: &Vec<HostNative>, id: u16) -> (r: bool)
    ensures
        r == row_may_hoist(row_in(rows@, id)),
{
    if !host_is_pure(rows, id) {
        return false;
    }
    match host_native(rows, id) {
        Some(n) => !starts_packed(n.name),
        None => false,
    }
}

fn starts_packed(name: &str) -> (r: bool)
    ensures
        r == packed_name(name@),
{
    let p = "packed_";
    let n = p.unicode_len();
    if name.unicode_len() < n {
        return false;
    }
    let mut i: usize = 0;
    while i < n
        invariant
            i <= n,
            n == p@.len(),
            n <= name@.len(),
            p@ == "packed_"@,
            forall|j: int| 0 <= j < i ==> name@[j] == p@[j],
        decreases n - i,
    {
        if name.get_char(i) != p.get_char(i) {
            assert(name@.subrange(0, n as int)[i as int] != p@[i as int]);
            return false;
        }
        i = i + 1;
    }
    assert(name@.subrange(0, n as int) =~= p@);
    true
}

impl InstV {
    /// An instruction that memory operations may not move across.
    pub open spec fn effect_barrier(self, hosts: Seq<HostNative>) -> bool {
        match self {
            InstV::HostInvoke { native_id, .. } => !row_effects(row_in(hosts, native_id)).pure(),
            InstV::Call { .. } => true,
            InstV::Alloc { .. } => true,
            InstV::GcBarrier { .. } => true,
            InstV::Deopt { .. } => true,
            InstV::FieldStore { .. } => true,
            InstV::HeapFieldStore { .. } => true,
            InstV::StoreIndex { .. } => true,
            InstV::ArrayPush { .. } => true,
            InstV::Print { .. } => true,
            InstV::Format { .. } => true,
            InstV::Stringify { .. } => true,
            _ => false,
        }
    }
}

impl MirInst {
    /// Impure host call, call, allocation, store or output.
    pub fn is_effect_barrier(&self, hosts: &Vec<HostNative>) -> (r: bool)
        ensures
            r == self@.effect_barrier(hosts@),
    {
        match self {
            MirInst::HostInvoke { native_id, .. } => !host_effects(hosts, *native_id).is_pure(),
            MirInst::Call { .. }
            | MirInst::Alloc { .. }
            | MirInst::GcBarrier { .. }
            | MirInst::Deopt { .. }
            | MirInst::FieldStore { .. }
            | MirInst::HeapFieldStore { .. }
            | MirInst::StoreIndex { .. }
            | MirInst::ArrayPush { .. }
            | MirInst::Print { .. }
            | MirInst::Format { .. }
            | MirInst::Stringify { .. } => true,
            _ => false,
        }
    }
}

/// A native that may be hoisted is pure, and one without a row is neither.
pub proof fn hoistable_hosts_are_pure(rows: Seq<HostNative>, id: u16)
    ensures
        row_may_hoist(row_in(rows, id)) ==> row_effects(row_in(rows, id)).pure(),
        row_in(rows, id) is None ==> !row_may_hoist(row_in(rows, id)) && !row_effects(row_in(rows, id)).pure(),
{
}

} // verus!
