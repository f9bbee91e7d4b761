//! The register file, kept in an `enum_map::EnumMap` keyed by register number.

use crate::hardware::Registers;
use enum_map::EnumMap;
use vstd::prelude::*;

verus! {

/// The machine's registers, held in an `EnumMap` with one slot for each
/// `u8`; register `r` lives in slot `r.number()`.
#[verifier::external_body]
pub struct RegisterFile {
    map: EnumMap<u8, u16>,
}

/// What the register file's map holds: the value of each of its slots.
pub uninterp spec fn slots(regs: RegisterFile) -> Seq<u16>;

impl View for RegisterFile {
    type V = Seq<u16>;

    open spec fn view(&self) -> Seq<u16> {
        slots(*self)
    }
}

/// `EnumMap::default`: every slot holds `u16::default()`, that is 0.
#[verifier::external_body]
fn map_default() -> (regs: RegisterFile)
    ensures
        slots(regs) == Seq::new(256, |i: int| 0u16),
{
    RegisterFile { map: EnumMap::default() }
}

/// `EnumMap`'s `Index`: the value in slot `k`.
#[verifier::external_body]
pub(crate) fn map_index(regs: &RegisterFile, k: u8) -> (v: u16)
    ensures
        v == slots(*regs)[k as int],
{
    regs.map[k]
}

/// `EnumMap`'s `IndexMut`, assigned through: slot `k` takes `v`, the others
/// keep their values.
#[verifier::external_body]
pub(crate) fn map_index_set(regs: &mut RegisterFile, k: u8, v: u16)
    ensures
        slots(*final(regs)) == slots(*old(regs)).update(k as int, v),
{
    regs.map[k] = v;
}

/// `EnumMap`'s `Clone`: a map holding the same values.
#[verifier::external_body]
pub(crate) fn map_clone(regs: &RegisterFile) -> (copy: RegisterFile)
    ensures
        slots(copy) == slots(*regs),
{
    RegisterFile { map: regs.map.clone() }
}

impl RegisterFile {
    /// The map has its 256 slots.
    pub open spec fn wf(&self) -> bool {
        self@.len() == 256
    }

    /// All registers zero.
    pub fn new() -> (regs: Self)
        ensures
            regs.wf(),
            forall|i: int| 0 <= i < 256 ==> #[trigger] regs@[i] == 0,
    {
        map_default()
    }

    /// The value of register `r`.
    pub fn get(&self, r: Registers) -> (v: u16)
        requires
            self.wf(),
        ensures
            v == self@[r.number() as int],
    {
        map_index(self, r.index())
    }

    /// Sets register `r` to `v`.
    pub fn set(&mut self, r: Registers, v: u16)
        requires
            old(self).wf(),
        ensures
            final(self).wf(),
            final(self)@ == old(self)@.update(r.number() as int, v),
    {
        map_index_set(self, r.index(), v);
    }
}

} // verus!
