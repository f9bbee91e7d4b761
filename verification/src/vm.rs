//! The virtual machine: it carries out one instruction per step, and asks the
//! caller for keyboard input and hands it console output on the way.

use crate::hardware::{
    image_fits_spec, image_origin, load_effect, CondFlags, Memory, OpCodes, Registers,
    TrapCall, DeviceEffect, store_effect, COND, DISP_STATUS, KB_DATA, KB_STATUS, MEM_SIZE, PC,
    STATUS_READY,
};
use crate::registers::{map_clone, map_index, map_index_set, RegisterFile};
use crate::semantics::{
    exec_add, exec_and, exec_br, exec_jmp, exec_jsr, exec_ldi, exec_lea, exec_load, exec_not,
    exec_op, exec_service, exec_st, exec_sti, exec_str, exec_trap, field_bit, field_dr,
    field_imm5, field_off11, field_off6, field_off9, field_sr1, field_sr2, field_trap, lemma_fields,
    operand2, puts, read, store, wait_key, dist_to_kb, emit, flow_out, halt_text, prompt_text,
    step_spec, word_chars, lemma_step_more_answers, lemma_step_sound, Ctx, Fault, Flow, KeyRequest,
};
use crate::utils::{
    flag_of, flag_word, sign_extend, update_flags, MASK_IMM5, MASK_OFFSET6, MASK_REG, MASK_SE_11, MASK_SE_9,
};
use vstd::prelude::*;

verus! {

/// Where the machine is in its life.
#[derive(Debug, Clone, Copy, PartialEq, Eq, Structural)]
pub enum State {
    INITIALIZED,
    READY,
    RUNNING,
    HALTED,
}

/// How a step ended.
#[derive(Debug, Clone, Copy, PartialEq, Eq, Structural)]
pub enum Progress {
    /// The instruction was carried out; the machine is now in this state.
    Done(State),
    /// The instruction needs a keyboard answer: give it with `supply_key`
    /// and step again.
    AwaitKey(KeyRequest),
    /// The instruction cannot be carried out.
    Fault(Fault),
}

/// What a step reports: how it ended, and the bytes to write to the console
/// that earlier steps have not reported yet. Each byte is a character code.
pub struct StepReport {
    pub progress: Progress,
    pub output: Vec<u8>,
}

/// Memory with the three device registers replaced.
pub open spec fn overlay(base: Seq<u16>, kb_status: u16, kb_data: u16, disp_status: u16) -> Seq<
    u16,
> {
    base.update(KB_STATUS as int, kb_status).update(KB_DATA as int, kb_data).update(
        DISP_STATUS as int,
        disp_status,
    )
}

/// An instruction being carried out without touching the machine: its
/// registers, the device registers it has changed, the store it ends with,
/// the keyboard answers it has taken and its output.
struct Scratch {
    state: State,
    reg: RegisterFile,
    kb_status: u16,
    kb_data: u16,
    disp_status: u16,
    store: Option<(u16, u16)>,
    pos: usize,
    out: Vec<u8>,
}

enum Outcome {
    Next,
    Need(KeyRequest),
    Fault(Fault),
}

impl Scratch {
    /// The machine the scratch stands for, over memory `base`.
    spec fn ctx(&self, base: Seq<u16>) -> Ctx {
        let m = overlay(base, self.kb_status, self.kb_data, self.disp_status);
        Ctx {
            state: self.state,
            mem: match self.store {
                Some((a, v)) => m.update(a as int, v),
                None => m,
            },
            reg: self.reg@,
            pos: self.pos as int,
            out: self.out@,
        }
    }

    spec fn inv(&self, base: Seq<u16>, keys: Seq<Option<u8>>) -> bool {
        &&& base.len() == MEM_SIZE
        &&& self.reg.wf()
        &&& self.pos <= keys.len()
    }
}

/// The scratch reports flow `f`.
spec fn reports(o: Outcome, sc: Scratch, base: Seq<u16>, f: Flow) -> bool {
    match f {
        Flow::Next(c) => o == Outcome::Next && sc.ctx(base) == c,
        Flow::Need(r, out) => o == Outcome::Need(r) && sc.out@ == out,
        Flow::Fault(x, out) => o == Outcome::Fault(x) && sc.out@ == out,
    }
}

// ----- fields -----

fn dr(op: u16) -> (r: u16)
    ensures
        r == field_dr(op),
        r < 8,
{
    proof {
        lemma_fields(op);
    }
    (op >> 9u16) & MASK_REG
}

fn sr1(op: u16) -> (r: u16)
    ensures
        r == field_sr1(op),
        r < 8,
{
    proof {
        lemma_fields(op);
    }
    (op >> 6u16) & MASK_REG
}

fn sr2(op: u16) -> (r: u16)
    ensures
        r == field_sr2(op),
        r < 8,
{
    proof {
        lemma_fields(op);
    }
    op & MASK_REG
}

fn bit(op: u16, b: u16) -> (r: bool)
    requires
        b < 16,
    ensures
        r == field_bit(op, b),
{
    (op >> b) & 1 == 1
}

fn off9(op: u16) -> (r: u16)
    ensures
        r == field_off9(op),
{
    sign_extend(op & MASK_SE_9, 9)
}

fn off11(op: u16) -> (r: u16)
    ensures
        r == field_off11(op),
{
    sign_extend(op & MASK_SE_11, 11)
}

fn off6(op: u16) -> (r: u16)
    ensures
        r == field_off6(op),
{
    sign_extend(op & MASK_OFFSET6, 6)
}

fn imm5(op: u16) -> (r: u16)
    ensures
        r == field_imm5(op),
{
    sign_extend(op & MASK_IMM5, 5)
}

// ----- scratch operations -----

/// Register slot `k`.
fn reg(sc: &Scratch, k: u16) -> (v: u16)
    requires
        k < 256,
    ensures
        v == sc.reg@[k as int],
{
    map_index(&sc.reg, k as u8)
}

fn set_reg(sc: &mut Scratch, k: u16, v: u16)
    requires
        k < 256,
        old(sc).reg.wf(),
    ensures
        final(sc).reg@ == old(sc).reg@.update(k as int, v),
        final(sc).reg.wf(),
        final(sc).state == old(sc).state,
        final(sc).kb_status == old(sc).kb_status,
        final(sc).kb_data == old(sc).kb_data,
        final(sc).disp_status == old(sc).disp_status,
        final(sc).store == old(sc).store,
        final(sc).pos == old(sc).pos,
        final(sc).out == old(sc).out,
{
    map_index_set(&mut sc.reg, k as u8, v);
}

fn set_flagged(sc: &mut Scratch, k: u16, v: u16)
    requires
        k < 256,
        old(sc).reg.wf(),
    ensures
        final(sc).reg@ == old(sc).reg@.update(k as int, v).update(
            COND as int,
            flag_word(flag_of(v)),
        ),
        final(sc).reg.wf(),
        final(sc).state == old(sc).state,
        final(sc).kb_status == old(sc).kb_status,
        final(sc).kb_data == old(sc).kb_data,
        final(sc).disp_status == old(sc).disp_status,
        final(sc).store == old(sc).store,
        final(sc).pos == old(sc).pos,
        final(sc).out == old(sc).out,
{
    map_index_set(&mut sc.reg, k as u8, v);
    update_flags(v, &mut sc.reg);
}

/// Reads `addr` as the instruction sees memory.
fn sc_read(mem: &Memory, sc: &mut Scratch, keys: &Vec<Option<u8>>, addr: u16) -> (r: Option<u16>)
    requires
        mem.wf(),
        old(sc).inv(mem@, keys@),
        old(sc).store is None,
    ensures
        final(sc).inv(mem@, keys@),
        final(sc).store is None,
        final(sc).reg == old(sc).reg,
        final(sc).state == old(sc).state,
        final(sc).out == old(sc).out,
        match read(old(sc).ctx(mem@), keys@, addr) {
            None => r is None && *final(sc) == *old(sc),
            Some((c2, w)) => r == Some(w) && final(sc).ctx(mem@) == c2,
        },
{
    let ghost c = sc.ctx(mem@);
    if addr == KB_STATUS {
        if sc.pos < keys.len() {
            match keys[sc.pos] {
                Some(k) => {
                    sc.kb_status = STATUS_READY;
                    sc.kb_data = k as u16;
                },
                None => {
                    sc.kb_status = 0;
                },
            }
            sc.pos = sc.pos + 1;
            let ghost r = read(c, keys@, addr);
            assert(sc.ctx(mem@).mem =~= r.unwrap().0.mem);
            Some(sc.kb_status)
        } else {
            None
        }
    } else if addr == DISP_STATUS {
        sc.disp_status = STATUS_READY;
        let ghost r = read(c, keys@, addr);
        assert(sc.ctx(mem@).mem =~= r.unwrap().0.mem);
        Some(STATUS_READY)
    } else if addr == KB_DATA {
        Some(sc.kb_data)
    } else {
        Some(mem.peek(addr))
    }
}

/// Ends the instruction with a store of `v` at `addr`.
fn sc_store(mem: &Memory, sc: &mut Scratch, keys: &Vec<Option<u8>>, addr: u16, v: u16) -> (o: Outcome)
    requires
        mem.wf(),
        old(sc).inv(mem@, keys@),
        old(sc).store is None,
    ensures
        final(sc).inv(mem@, keys@),
        reports(o, *final(sc), mem@, store(old(sc).ctx(mem@), addr, v)),
{
    sc.store = Some((addr, v));
    match store_effect(addr, v) {
        DeviceEffect::Display(ch) => emit_char(&mut sc.out, ch),
        DeviceEffect::Stop => {
            sc.state = State::HALTED;
        },
        DeviceEffect::Nothing => {},
    }
    Outcome::Next
}

/// Appends the bytes written for character `c`.
fn emit_char(out: &mut Vec<u8>, c: u8)
    ensures
        final(out)@ == old(out)@ + emit(c),
{
    if c == 10 {
        out.push(13);
        out.push(10);
    } else {
        out.push(c);
    }
    assert(final(out)@ =~= old(out)@ + emit(c));
}

/// Appends `text`.
fn emit_text(out: &mut Vec<u8>, text: &[u8])
    ensures
        final(out)@ == old(out)@ + text@,
{
    let mut i: usize = 0;
    while i < text.len()
        invariant
            i <= text.len(),
            out@ == old(out)@ + text@.take(i as int),
        decreases text.len() - i,
    {
        out.push(text[i]);
        i = i + 1;
        assert(text@.take(i as int) =~= text@.take((i - 1) as int).push(text@[i - 1]));
    }
    assert(text@.take(i as int) =~= text@);
}

/// The first key among the answers not yet taken.
fn sc_wait_key(sc: &mut Scratch, keys: &Vec<Option<u8>>) -> (r: Option<u8>)
    requires
        old(sc).pos <= keys.len(),
    ensures
        final(sc).reg == old(sc).reg,
        final(sc).state == old(sc).state,
        final(sc).kb_status == old(sc).kb_status,
        final(sc).kb_data == old(sc).kb_data,
        final(sc).disp_status == old(sc).disp_status,
        final(sc).store == old(sc).store,
        final(sc).out == old(sc).out,
        final(sc).pos <= keys.len(),
        match wait_key(keys@, old(sc).pos as int) {
            None => r is None,
            Some((k, p)) => r == Some(k) && final(sc).pos == p,
        },
{
    let mut i = sc.pos;
    while i < keys.len()
        invariant
            old(sc).pos <= i <= keys.len(),
            wait_key(keys@, i as int) == wait_key(keys@, old(sc).pos as int),
            *sc == *old(sc),
        decreases keys.len() - i,
    {
        match keys[i] {
            Some(k) => {
                sc.pos = i + 1;
                return Some(k);
            },
            None => {
                i = i + 1;
            },
        }
    }
    None
}

/// Writes the string at `ptr` up to the first zero word.
fn sc_puts(mem: &Memory, sc: &mut Scratch, keys: &Vec<Option<u8>>, ptr: u16, packed: bool) -> (o:
    Outcome)
    requires
        mem.wf(),
        old(sc).inv(mem@, keys@),
        old(sc).store is None,
    ensures
        final(sc).inv(mem@, keys@),
        reports(o, *final(sc), mem@, puts(old(sc).ctx(mem@), keys@, ptr, packed)),
{
    let mut p = ptr;
    loop
        invariant
            mem.wf(),
            sc.inv(mem@, keys@),
            sc.store is None,
            puts(sc.ctx(mem@), keys@, p, packed) == puts(old(sc).ctx(mem@), keys@, ptr, packed),
        decreases keys.len() - sc.pos, dist_to_kb(p),
    {
        let ghost c = sc.ctx(mem@);
        match sc_read(mem, sc, keys, p) {
            None => {
                return Outcome::Need(KeyRequest::Poll);
            },
            Some(data) => {
                if data == 0 {
                    return Outcome::Next;
                }
                if packed {
                    emit_char(&mut sc.out, (data & 0xFF) as u8);
                    if data >> 8u16 != 0 {
                        emit_char(&mut sc.out, (data >> 8u16) as u8);
                    }
                } else {
                    emit_char(&mut sc.out, data as u8);
                }
                let ghost c2 = read(c, keys@, p).unwrap().0;
                assert(sc.out@ =~= c2.out + word_chars(data, packed));
                assert(sc.ctx(mem@) == c2.with_out(c2.out + word_chars(data, packed)));
                p = p.wrapping_add(1);
            },
        }
    }
}

// ----- instructions -----

fn sc_br(mem: &Memory, sc: &mut Scratch, keys: &Vec<Option<u8>>, op: u16) -> (o: Outcome)
    requires
        mem.wf(),
        old(sc).inv(mem@, keys@),
        old(sc).reg.wf(),
        old(sc).reg@[COND as int] <= 2,
    ensures
        final(sc).inv(mem@, keys@),
        reports(o, *final(sc), mem@, exec_br(old(sc).ctx(mem@), op)),
{
    let n = bit(op, 11);
    let z = bit(op, 10);
    let p = bit(op, 9);
    let pc_offset = off9(op);
    let condition_flag = match CondFlags::try_from(reg(sc, COND as u16)) {
        Ok(f) => f,
        Err(_) => {
            assert(false);
            CondFlags::Zero
        },
    };
    if (n && condition_flag == CondFlags::Neg) || (z && condition_flag == CondFlags::Zero) || (p
        && condition_flag == CondFlags::Pos) {
        let current_pc = reg(sc, PC as u16);
        set_reg(sc, PC as u16, current_pc.wrapping_add(pc_offset));
    }
    Outcome::Next
}

fn sc_jmp(mem: &Memory, sc: &mut Scratch, keys: &Vec<Option<u8>>, op: u16) -> (o: Outcome)
    requires
        mem.wf(),
        old(sc).inv(mem@, keys@),
        old(sc).reg.wf(),
    ensures
        final(sc).inv(mem@, keys@),
        reports(o, *final(sc), mem@, exec_jmp(old(sc).ctx(mem@), op)),
{
    let base_r = sr1(op);
    if base_r == MASK_REG {
        let r7 = reg(sc, 7);
        set_reg(sc, PC as u16, r7);
    } else {
        let target = reg(sc, base_r);
        set_reg(sc, PC as u16, target);
    }
    Outcome::Next
}

fn sc_jsr(mem: &Memory, sc: &mut Scratch, keys: &Vec<Option<u8>>, op: u16) -> (o: Outcome)
    requires
        mem.wf(),
        old(sc).inv(mem@, keys@),
        old(sc).reg.wf(),
    ensures
        final(sc).inv(mem@, keys@),
        reports(o, *final(sc), mem@, exec_jsr(old(sc).ctx(mem@), op)),
{
    let mode = bit(op, 11);
    let pc = reg(sc, PC as u16);
    set_reg(sc, 7, pc);
    if mode {
        let pc_offset = off11(op);
        let pc = reg(sc, PC as u16);
        set_reg(sc, PC as u16, pc.wrapping_add(pc_offset));
    } else {
        let target = reg(sc, sr1(op));
        set_reg(sc, PC as u16, target);
    }
    Outcome::Next
}

fn sc_st(mem: &Memory, sc: &mut Scratch, keys: &Vec<Option<u8>>, op: u16) -> (o: Outcome)
    requires
        mem.wf(),
        old(sc).inv(mem@, keys@),
        old(sc).reg.wf(),
        old(sc).store is None,
    ensures
        final(sc).inv(mem@, keys@),
        reports(o, *final(sc), mem@, exec_st(old(sc).ctx(mem@), op)),
{
    let reg_data = reg(sc, dr(op));
    let address = reg(sc, PC as u16).wrapping_add(off9(op));
    sc_store(mem, sc, keys, address, reg_data)
}

fn sc_str(mem: &Memory, sc: &mut Scratch, keys: &Vec<Option<u8>>, op: u16) -> (o: Outcome)
    requires
        mem.wf(),
        old(sc).inv(mem@, keys@),
        old(sc).reg.wf(),
        old(sc).store is None,
    ensures
        final(sc).inv(mem@, keys@),
        reports(o, *final(sc), mem@, exec_str(old(sc).ctx(mem@), op)),
{
    let base_reg_data = reg(sc, sr1(op));
    let final_reg_data = reg(sc, dr(op));
    sc_store(mem, sc, keys, base_reg_data.wrapping_add(off6(op)), final_reg_data)
}

fn sc_sti(mem: &Memory, sc: &mut Scratch, keys: &Vec<Option<u8>>, op: u16) -> (o: Outcome)
    requires
        mem.wf(),
        old(sc).inv(mem@, keys@),
        old(sc).store is None,
    ensures
        final(sc).inv(mem@, keys@),
        reports(o, *final(sc), mem@, exec_sti(old(sc).ctx(mem@), keys@, op)),
{
    let pc_offset = off9(op);
    let reg_data = reg(sc, dr(op));
    let pc = reg(sc, PC as u16);
    if pc as u32 + pc_offset as u32 > 0xFFFF {
        return Outcome::Fault(Fault::Overflow);
    }
    match sc_read(mem, sc, keys, pc + pc_offset) {
        None => Outcome::Need(KeyRequest::Poll),
        Some(address) => sc_store(mem, sc, keys, address, reg_data),
    }
}

fn sc_load(mem: &Memory, sc: &mut Scratch, keys: &Vec<Option<u8>>, op: u16, addr: u16) -> (o:
    Outcome)
    requires
        mem.wf(),
        old(sc).inv(mem@, keys@),
        old(sc).store is None,
    ensures
        final(sc).inv(mem@, keys@),
        reports(o, *final(sc), mem@, exec_load(old(sc).ctx(mem@), keys@, op, addr)),
{
    match sc_read(mem, sc, keys, addr) {
        None => Outcome::Need(KeyRequest::Poll),
        Some(value) => {
            set_flagged(sc, dr(op), value);
            Outcome::Next
        },
    }
}

fn sc_ldi(mem: &Memory, sc: &mut Scratch, keys: &Vec<Option<u8>>, op: u16) -> (o: Outcome)
    requires
        mem.wf(),
        old(sc).inv(mem@, keys@),
        old(sc).store is None,
    ensures
        final(sc).inv(mem@, keys@),
        reports(o, *final(sc), mem@, exec_ldi(old(sc).ctx(mem@), keys@, op)),
{
    let pc_offset = off9(op);
    let pc = reg(sc, PC as u16);
    match sc_read(mem, sc, keys, pc.wrapping_add(pc_offset)) {
        None => Outcome::Need(KeyRequest::Poll),
        Some(mem_index) => sc_load(mem, sc, keys, op, mem_index),
    }
}

fn sc_lea(mem: &Memory, sc: &mut Scratch, keys: &Vec<Option<u8>>, op: u16) -> (o: Outcome)
    requires
        mem.wf(),
        old(sc).inv(mem@, keys@),
        old(sc).reg.wf(),
    ensures
        final(sc).inv(mem@, keys@),
        reports(o, *final(sc), mem@, exec_lea(old(sc).ctx(mem@), op)),
{
    let value = reg(sc, PC as u16).wrapping_add(off9(op));
    set_flagged(sc, dr(op), value);
    Outcome::Next
}

/// The second operand of ADD and AND.
fn sc_operand2(sc: &Scratch, op: u16) -> (v: u16)
    requires
        sc.reg.wf(),
    ensures
        forall|base: Seq<u16>| v == #[trigger] operand2(sc.ctx(base), op),
{
    if bit(op, 5) {
        imm5(op)
    } else {
        reg(sc, sr2(op))
    }
}

fn sc_add(mem: &Memory, sc: &mut Scratch, keys: &Vec<Option<u8>>, op: u16) -> (o: Outcome)
    requires
        mem.wf(),
        old(sc).inv(mem@, keys@),
        old(sc).reg.wf(),
    ensures
        final(sc).inv(mem@, keys@),
        reports(o, *final(sc), mem@, exec_add(old(sc).ctx(mem@), op)),
{
    let reg1 = reg(sc, sr1(op));
    let value = reg1.wrapping_add(sc_operand2(sc, op));
    set_flagged(sc, dr(op), value);
    Outcome::Next
}

fn sc_and(mem: &Memory, sc: &mut Scratch, keys: &Vec<Option<u8>>, op: u16) -> (o: Outcome)
    requires
        mem.wf(),
        old(sc).inv(mem@, keys@),
        old(sc).reg.wf(),
    ensures
        final(sc).inv(mem@, keys@),
        reports(o, *final(sc), mem@, exec_and(old(sc).ctx(mem@), op)),
{
    let reg1 = reg(sc, sr1(op));
    let value = reg1 & sc_operand2(sc, op);
    set_flagged(sc, dr(op), value);
    Outcome::Next
}

fn sc_not(mem: &Memory, sc: &mut Scratch, keys: &Vec<Option<u8>>, op: u16) -> (o: Outcome)
    requires
        mem.wf(),
        old(sc).inv(mem@, keys@),
        old(sc).reg.wf(),
    ensures
        final(sc).inv(mem@, keys@),
        reports(o, *final(sc), mem@, exec_not(old(sc).ctx(mem@), op)),
{
    let value = !reg(sc, sr1(op));
    set_flagged(sc, dr(op), value);
    Outcome::Next
}

/// The service routine of trap vector `vect`.
fn sc_service(mem: &Memory, sc: &mut Scratch, keys: &Vec<Option<u8>>, vect: u16) -> (o: Outcome)
    requires
        mem.wf(),
        old(sc).inv(mem@, keys@),
        old(sc).store is None,
    ensures
        final(sc).inv(mem@, keys@),
        reports(o, *final(sc), mem@, exec_service(old(sc).ctx(mem@), keys@, vect)),
{
    match TrapCall::try_from(vect) {
        Ok(TrapCall::GETC) => match sc_wait_key(sc, keys) {
            None => Outcome::Need(KeyRequest::Wait),
            Some(c) => {
                set_reg(sc, 0, c as u16);
                Outcome::Next
            },
        },
        Ok(TrapCall::OUT) => {
            let c = reg(sc, 0) as u8;
            emit_char(&mut sc.out, c);
            Outcome::Next
        },
        Ok(TrapCall::HALT) => {
            let text: [u8; 15] = [13, 10, 10, 86, 77, 32, 101, 120, 105, 116, 101, 100, 46, 13, 10];
            assert(text@ =~= halt_text());
            emit_text(&mut sc.out, &text);
            sc.state = State::HALTED;
            Outcome::Next
        },
        Ok(TrapCall::PUTS) => {
            let pointer = reg(sc, 0);
            sc_puts(mem, sc, keys, pointer, false)
        },
        Ok(TrapCall::IN) => {
            let text: [u8; 19] = [
                73,
                110,
                112,
                117,
                116,
                32,
                97,
                32,
                99,
                104,
                97,
                114,
                97,
                99,
                116,
                101,
                114,
                58,
                32,
            ];
            assert(text@ =~= prompt_text());
            emit_text(&mut sc.out, &text);
            match sc_wait_key(sc, keys) {
                None => Outcome::Need(KeyRequest::Wait),
                Some(c) => {
                    let ghost before = sc.out@;
                    sc.out.push(c);
                    sc.out.push(13);
                    sc.out.push(10);
                    assert(sc.out@ =~= before + seq![c, 13u8, 10u8]);
                    set_reg(sc, 0, (c as u16) & 0xFF);
                    Outcome::Next
                },
            }
        },
        Ok(TrapCall::PUTSP) => {
            let pointer = reg(sc, 0);
            sc_puts(mem, sc, keys, pointer, true)
        },
        Err(_) => Outcome::Fault(Fault::UnknownTrap(vect)),
    }
}

fn sc_trap(mem: &Memory, sc: &mut Scratch, keys: &Vec<Option<u8>>, op: u16) -> (o: Outcome)
    requires
        mem.wf(),
        old(sc).inv(mem@, keys@),
        old(sc).store is None,
    ensures
        final(sc).inv(mem@, keys@),
        reports(o, *final(sc), mem@, exec_trap(old(sc).ctx(mem@), keys@, op)),
{
    let pc = reg(sc, PC as u16);
    set_reg(sc, 7, pc);
    proof {
        lemma_fields(op);
    }
    sc_service(mem, sc, keys, op & 0xFF)
}

/// Carries out instruction `op`.
fn sc_instruction(mem: &Memory, sc: &mut Scratch, keys: &Vec<Option<u8>>, op: u16) -> (o: Outcome)
    requires
        mem.wf(),
        old(sc).inv(mem@, keys@),
        old(sc).store is None,
        old(sc).reg@[COND as int] <= 2,
    ensures
        final(sc).inv(mem@, keys@),
        reports(o, *final(sc), mem@, exec_op(old(sc).ctx(mem@), keys@, op)),
{
    proof {
        lemma_fields(op);
    }
    match OpCodes::try_from((op >> 12u16) as u8) {
        Ok(OpCodes::OpBR) => sc_br(mem, sc, keys, op),
        Ok(OpCodes::OpADD) => sc_add(mem, sc, keys, op),
        Ok(OpCodes::OpLD) => {
            let addr = reg(sc, PC as u16).wrapping_add(off9(op));
            sc_load(mem, sc, keys, op, addr)
        },
        Ok(OpCodes::OpST) => sc_st(mem, sc, keys, op),
        Ok(OpCodes::OpJSR) => sc_jsr(mem, sc, keys, op),
        Ok(OpCodes::OpAND) => sc_and(mem, sc, keys, op),
        Ok(OpCodes::OpLDR) => {
            let addr = reg(sc, sr1(op)).wrapping_add(off6(op));
            sc_load(mem, sc, keys, op, addr)
        },
        Ok(OpCodes::OpSTR) => sc_str(mem, sc, keys, op),
        Ok(OpCodes::OpRTI) => Outcome::Fault(Fault::Unimplemented),
        Ok(OpCodes::OpNOT) => sc_not(mem, sc, keys, op),
        Ok(OpCodes::OpLDI) => sc_ldi(mem, sc, keys, op),
        Ok(OpCodes::OpSTI) => sc_sti(mem, sc, keys, op),
        Ok(OpCodes::OpJMP) => sc_jmp(mem, sc, keys, op),
        Ok(OpCodes::OpRES) => Outcome::Fault(Fault::Unimplemented),
        Ok(OpCodes::OpLEA) => sc_lea(mem, sc, keys, op),
        Ok(OpCodes::OpTRAP) => sc_trap(mem, sc, keys, op),
        Err(_) => {
            assert(false);
            Outcome::Fault(Fault::Unimplemented)
        },
    }
}

/// One step on the scratch.
fn sc_step(mem: &Memory, sc: &mut Scratch, keys: &Vec<Option<u8>>) -> (o: Outcome)
    requires
        mem.wf(),
        old(sc).inv(mem@, keys@),
        old(sc).store is None,
        old(sc).reg@[COND as int] <= 2,
    ensures
        final(sc).inv(mem@, keys@),
        reports(o, *final(sc), mem@, step_spec(old(sc).ctx(mem@), keys@)),
{
    if sc.state == State::HALTED {
        return Outcome::Next;
    }
    if sc.state == State::READY {
        sc.state = State::RUNNING;
    }
    let pc = reg(sc, PC as u16);
    set_reg(sc, PC as u16, pc.wrapping_add(1));
    match sc_read(mem, sc, keys, pc) {
        None => Outcome::Need(KeyRequest::Poll),
        Some(op) => sc_instruction(mem, sc, keys, op),
    }
}

/// `v` from position `from` on.
fn tail(v: &Vec<u8>, from: usize) -> (t: Vec<u8>)
    requires
        from <= v.len(),
    ensures
        t@ == v@.subrange(from as int, v.len() as int),
{
    let mut t: Vec<u8> = Vec::new();
    let mut i = from;
    while i < v.len()
        invariant
            from <= i <= v.len(),
            t@ == v@.subrange(from as int, i as int),
        decreases v.len() - i,
    {
        t.push(v[i]);
        i = i + 1;
        assert(t@ =~= v@.subrange(from as int, i as int));
    }
    t
}

/// An LC-3 virtual machine.
///
/// Each call of `step` carries out one instruction. An instruction that needs
/// the keyboard stops and asks for an answer (`Progress::AwaitKey`); the
/// caller gives it with `supply_key` and steps again, and the instruction is
/// carried out anew with all the answers given so far. Each report holds only
/// the output that earlier reports did not.
pub struct VM {
    state: State,
    mem: Memory,
    reg: RegisterFile,
    answers: Vec<Option<u8>>,
    reported: usize,
}

impl VM {
    /// The machine between instructions.
    pub closed spec fn machine(&self) -> Ctx {
        Ctx {
            state: self.state,
            mem: self.mem@,
            reg: self.reg@,
            pos: 0,
            out: Seq::empty(),
        }
    }

    /// The keyboard answers given to the instruction in progress.
    pub closed spec fn answers(&self) -> Seq<Option<u8>> {
        self.answers@
    }

    /// How many bytes of the instruction's output have been reported.
    pub closed spec fn reported(&self) -> nat {
        self.reported as nat
    }

    /// The machine is sound and what was reported is part of what the
    /// instruction in progress writes.
    pub closed spec fn wf(&self) -> bool {
        &&& self.machine().ok()
        &&& self.mem.wf()
        &&& self.reg.wf()
        &&& self.reported <= flow_out(step_spec(self.machine(), self.answers@)).len()
    }

    /// What every machine the library hands out satisfies (`new` gives a
    /// sound machine and every call keeps it so): memory and registers are
    /// complete, the condition register holds one of the three flags, so
    /// that a branch always finds a flag, the `RCount` slot stays zero, and
    /// between instructions no keyboard answer is taken and nothing is
    /// written.
    pub proof fn lemma_sound(&self)
        requires
            self.wf(),
        ensures
            self.machine().ok(),
            self.machine().reg[COND as int] <= 2,
            self.machine().reg[Registers::RCount.number() as int] == 0,
            self.machine().pos == 0,
            self.machine().out == Seq::<u8>::empty(),
    {
    }

    /// A machine with zeroed memory and registers, the condition flag set to
    /// zero, not yet loaded.
    pub fn new() -> (vm: Self)
        ensures
            vm.wf(),
            vm.machine().state == State::INITIALIZED,
            vm.machine().mem == Seq::new(MEM_SIZE as nat, |i: int| 0u16),
            vm.machine().reg == Seq::new(256, |i: int| 0u16).update(
                COND as int,
                flag_word(CondFlags::Zero),
            ),
            vm.machine().pos == 0,
            vm.machine().out == Seq::<u8>::empty(),
            vm.answers() == Seq::<Option<u8>>::empty(),
            vm.reported() == 0,
    {
        let mut reg = RegisterFile::new();
        reg.set(Registers::RCond, CondFlags::Zero.to_word());
        let vm = VM {
            state: State::INITIALIZED,
            mem: Memory::new(),
            reg,
            answers: Vec::new(),
            reported: 0,
        };
        assert(vm.machine().reg =~= Seq::new(256, |i: int| 0u16).update(
            COND as int,
            flag_word(CondFlags::Zero),
        ));
        vm
    }

    /// Loads an object image (see `Memory::load_image`), points the program
    /// counter at its origin and makes the machine ready. An instruction in
    /// progress is dropped.
    pub fn load_image(&mut self, image: &[u8])
        requires
            old(self).wf(),
            image_fits_spec(image@),
        ensures
            final(self).wf(),
            final(self).machine().state == State::READY,
            final(self).machine().mem == load_effect(
                old(self).machine().mem,
                image@,
            ),
            final(self).machine().reg == old(self).machine().reg.update(
                PC as int,
                image_origin(image@),
            ),
            final(self).machine().pos == 0,
            final(self).machine().out == Seq::<u8>::empty(),
            final(self).answers() == Seq::<Option<u8>>::empty(),
            final(self).reported() == 0,
    {
        let origin = self.mem.load_image(image);
        map_index_set(&mut self.reg, PC, origin);
        self.state = State::READY;
        self.answers = Vec::new();
        self.reported = 0;
    }

    /// The machine's state.
    pub fn get_state(&self) -> (s: &State)
        ensures
            *s == self.machine().state,
    {
        &self.state
    }

    /// The value of register `r`.
    pub fn register(&self, r: Registers) -> (v: u16)
        requires
            self.wf(),
        ensures
            v == self.machine().reg[r.number() as int],
    {
        self.reg.get(r)
    }

    /// Gives the instruction in progress the keyboard's next answer: `None`
    /// when a poll found no key, `Some(c)` for key `c`.
    pub fn supply_key(&mut self, key: Option<u8>)
        requires
            old(self).wf(),
        ensures
            final(self).wf(),
            final(self).machine() == old(self).machine(),
            final(self).machine().pos == 0,
            final(self).machine().out == Seq::<u8>::empty(),
            final(self).answers() == old(self).answers().push(key),
            final(self).reported() == old(self).reported(),
    {
        proof {
            lemma_step_more_answers(self.machine(), self.answers@, self.answers@.push(key));
        }
        self.answers.push(key);
    }

    /// Carries out the instruction at the program counter with the keyboard
    /// answers given so far (see `step_spec`). When it finishes, the machine
    /// takes its effect and the answers are dropped; when it stops to ask the
    /// keyboard or fails, the machine is unchanged. The report holds the
    /// instruction's output from where the last report of it ended.
    pub fn step(&mut self) -> (report: StepReport)
        requires
            old(self).wf(),
        ensures
            final(self).wf(),
            final(self).machine().pos == 0,
            final(self).machine().out == Seq::<u8>::empty(),
            match step_spec(old(self).machine(), old(self).answers()) {
                Flow::Next(c) => {
                    &&& report.progress == Progress::Done(c.state)
                    &&& final(self).machine() == c.settled()
                    &&& final(self).answers() == Seq::<Option<u8>>::empty()
                    &&& final(self).reported() == 0
                    &&& report.output@ == c.out.subrange(old(self).reported() as int, c.out.len() as int)
                },
                Flow::Need(r, out) => {
                    &&& report.progress == Progress::AwaitKey(r)
                    &&& final(self).machine() == old(self).machine()
                    &&& final(self).answers() == old(self).answers()
                    &&& final(self).reported() == out.len()
                    &&& report.output@ == out.subrange(old(self).reported() as int, out.len() as int)
                },
                Flow::Fault(f, out) => {
                    &&& report.progress == Progress::Fault(f)
                    &&& final(self).machine() == old(self).machine()
                    &&& final(self).answers() == old(self).answers()
                    &&& final(self).reported() == out.len()
                    &&& report.output@ == out.subrange(old(self).reported() as int, out.len() as int)
                },
            },
    {
        let mut sc = Scratch {
            state: self.state,
            reg: map_clone(&self.reg),
            kb_status: self.mem.peek(KB_STATUS),
            kb_data: self.mem.peek(KB_DATA),
            disp_status: self.mem.peek(DISP_STATUS),
            store: None,
            pos: 0,
            out: Vec::new(),
        };
        assert(sc.ctx(self.mem@).mem =~= self.mem@);
        assert(sc.ctx(self.mem@) == self.machine());
        proof {
            lemma_step_sound(self.machine(), self.answers@);
        }
        let o = sc_step(&self.mem, &mut sc, &self.answers);
        let output = tail(&sc.out, self.reported);
        match o {
            Outcome::Next => {
                let ghost c = sc.ctx(self.mem@);
                // the device effect of the instruction's store was carried
                // out with the instruction, before its output was reported
                self.mem.write(KB_STATUS, sc.kb_status);
                self.mem.write(KB_DATA, sc.kb_data);
                self.mem.write(DISP_STATUS, sc.disp_status);
                match sc.store {
                    Some((a, v)) => {
                        self.mem.write(a, v);
                    },
                    None => {},
                }
                assert(self.mem@ =~= c.mem);
                self.reg = sc.reg;
                self.state = sc.state;
                self.answers = Vec::new();
                self.reported = 0;
                StepReport { progress: Progress::Done(sc.state), output }
            },
            Outcome::Need(r) => {
                self.reported = sc.out.len();
                StepReport { progress: Progress::AwaitKey(r), output }
            },
            Outcome::Fault(f) => {
                self.reported = sc.out.len();
                StepReport { progress: Progress::Fault(f), output }
            },
        }
    }
}

} // verus!
